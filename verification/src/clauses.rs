//! Reading translated queries back: laws that say, for each clause of a query, which transforms
//! of the pipeline it comes from and what it says of them.

use crate::ast::{
    Context, DialectHandler, Expr, ExprKind, JoinFilter, JoinSide, MaterializationContext,
    MaterializedFrame, Query, Range, Table, TableRef, Transform, TransformKind,
};
use crate::error::{
    agrees, all_done, collect, law_first_failure_decides, lemma_collect_done, speaks_for, Error,
    ErrorView, Outcome,
};
use crate::expr::{expr_sql, exprs_sql, filter_sql, kinds, sorts_sql};
use crate::ident::{ident_parts, is_quoted_as_needed, law_parts_are_quoted_as_needed};
use crate::pipeline::{atomized, atomizing_fails, cut_fails, cut_tables, AtomicTable, Stage};
use crate::print::{laid_out, query_text};
use crate::query::{
    aggregate_position, atomics_translated, braced, conditions, cte_sql, ctes_sql, finished, froms,
    grouping, having_conditions, join_sql, joins, lemma_aggregate_position, limits, materialized,
    materializing_fails, query_sql, query_tables, ranges, select_items, table_id,
    table_materialized, tables_materialized, tables_sql, tables_translated, translated,
    using_columns, where_conditions,
};
use crate::range::{range_of, skip_and_limit};
use crate::reading::{
    is_column, is_conjunction, is_order, law_conjunctions, law_orders, law_select_columns,
    values_of,
};
use crate::sql::{
    CteView, ExprView, IdentView, JoinConstraintView, JoinOperatorView, JoinView, QueryView,
    SelectQueryView, SqlQuery, TableFactorView, ValueView,
};
use crate::text::{
    int_text, law_every_occurrence_is_replaced, pieces_between, replaced, with_between,
};
use vstd::prelude::*;

verus! {

// ---------------------------------------------------------------------------
// The transforms of a pipeline by what they do
// ---------------------------------------------------------------------------

/// The conditions of the filters of a pipeline, in order.
pub open spec fn filtered_by(pipeline: Seq<Transform>) -> Seq<ExprKind> {
    pipeline.filter(|t: Transform| t.kind is Filter).map_values(
        |t: Transform| t.kind->Filter_0.kind,
    )
}

/// The tables that a pipeline starts from, in order.
pub open spec fn started_from(pipeline: Seq<Transform>) -> Seq<TableRef> {
    pipeline.filter(|t: Transform| t.kind is From).map_values(|t: Transform| t.kind->From_0)
}

/// The joins of a pipeline, in order.
pub open spec fn joined_with(pipeline: Seq<Transform>) -> Seq<TransformKind> {
    pipeline.filter(|t: Transform| t.kind is Join).map_values(|t: Transform| t.kind)
}

/// The ranges that a pipeline takes, in order.
pub open spec fn taken_from(pipeline: Seq<Transform>) -> Seq<Range> {
    pipeline.filter(|t: Transform| t.kind is Take).map_values(|t: Transform| t.kind->Take_range)
}

/// Nothing of the first transforms of a pipeline aggregates, and the next one does if there is
/// one.
pub open spec fn aggregates_first_at(pipeline: Seq<Transform>, n: int) -> bool {
    &&& 0 <= n <= pipeline.len()
    &&& forall|i: int| 0 <= i < n ==> (#[trigger] pipeline[i]).kind !is Aggregate
    &&& n < pipeline.len() ==> pipeline[n].kind is Aggregate
}

/// The conditions of a pipeline are those of its filters.
proof fn lemma_filtered_by(pipeline: Seq<Transform>)
    ensures
        conditions(pipeline) == filtered_by(pipeline),
    decreases pipeline.len(),
{
    reveal(Seq::filter);
    if pipeline.len() > 0 {
        lemma_filtered_by(pipeline.drop_last());
    }
    assert(conditions(pipeline) =~= filtered_by(pipeline));
}

/// The tables of a pipeline are those that it starts from.
proof fn lemma_started_from(pipeline: Seq<Transform>, h: DialectHandler)
    ensures
        froms(pipeline, h).len() == started_from(pipeline).len(),
        forall|i: int|
            0 <= i < froms(pipeline, h).len() ==> is_table(
                #[trigger] froms(pipeline, h)[i],
                started_from(pipeline)[i],
                h,
            ),
    decreases pipeline.len(),
{
    reveal(Seq::filter);
    if pipeline.len() > 0 {
        let shorter = pipeline.drop_last();
        lemma_started_from(shorter, h);
        assert forall|i: int| 0 <= i < froms(pipeline, h).len() implies is_table(
            #[trigger] froms(pipeline, h)[i],
            started_from(pipeline)[i],
            h,
        ) by {
            if i < froms(shorter, h).len() {
                assert(is_table(froms(shorter, h)[i], started_from(shorter)[i], h));
            }
        }
    }
}

/// The joins of a pipeline are written one by one.
proof fn lemma_joined_with(pipeline: Seq<Transform>, h: DialectHandler)
    ensures
        joins(pipeline, h) == joins_written(pipeline, h),
    decreases pipeline.len(),
{
    reveal(Seq::filter);
    if pipeline.len() > 0 {
        lemma_joined_with(pipeline.drop_last(), h);
    }
    assert(joins(pipeline, h) =~= joins_written(pipeline, h));
}

/// The ranges of a pipeline are those that it takes.
proof fn lemma_taken_from(pipeline: Seq<Transform>)
    ensures
        ranges(pipeline) == taken_from(pipeline),
    decreases pipeline.len(),
{
    reveal(Seq::filter);
    if pipeline.len() > 0 {
        lemma_taken_from(pipeline.drop_last());
    }
    assert(ranges(pipeline) =~= taken_from(pipeline));
}

/// The first aggregation is the one that is found.
proof fn lemma_aggregates_first(pipeline: Seq<Transform>, n: int)
    requires
        aggregates_first_at(pipeline, n),
    ensures
        n == aggregate_position(pipeline),
{
    lemma_aggregate_position(pipeline);
    let m = aggregate_position(pipeline);
    if m < n {
        assert(pipeline[m].kind !is Aggregate);
    }
    if n < m {
        assert(pipeline[n].kind !is Aggregate);
    }
}

// ---------------------------------------------------------------------------
// Tables and joins
// ---------------------------------------------------------------------------

/// A table is read by its name, and goes by its alias if it has one.
pub open spec fn is_table(written: TableFactorView, table: TableRef, h: DialectHandler) -> bool {
    &&& written.name == ident_parts(table.name@, h)
    &&& match written.alias {
        Some(ident) => table.alias matches Some(alias) && ident.value == alias@
            && ident.quote_style is None,
        None => table.alias is None,
    }
}

/// Which rows without a partner a join of SQL keeps.
pub open spec fn keeps(join: JoinOperatorView) -> JoinSide {
    match join {
        JoinOperatorView::Inner(_) => JoinSide::Inner,
        JoinOperatorView::LeftOuter(_) => JoinSide::Left,
        JoinOperatorView::RightOuter(_) => JoinSide::Right,
        JoinOperatorView::FullOuter(_) => JoinSide::Full,
    }
}

/// The condition of a join of SQL.
pub open spec fn matched_by(join: JoinOperatorView) -> JoinConstraintView {
    match join {
        JoinOperatorView::Inner(c) => c,
        JoinOperatorView::LeftOuter(c) => c,
        JoinOperatorView::RightOuter(c) => c,
        JoinOperatorView::FullOuter(c) => c,
    }
}

/// A join reads its table and keeps the rows of its side.
pub proof fn law_joins_keep_their_side(
    side: JoinSide,
    with: TableRef,
    filter: JoinFilter,
    h: DialectHandler,
)
    ensures
        join_sql(TransformKind::Join { side, with, filter }, h) matches Outcome::Done(j) ==> {
            &&& is_table(j.relation, with, h)
            &&& keeps(j.join_operator) == side
        },
{
}

/// A join with conditions matches by all of them: `ON` is the conjunction of their translations,
/// in order. It is `true` only if there are none. The join fails at the first condition that
/// does.
pub proof fn law_joins_match_by_all_conditions(
    side: JoinSide,
    with: TableRef,
    on: Vec<Expr>,
    h: DialectHandler,
)
    ensures
        ({
            let parts = Seq::new(on@.len(), |i: int| expr_sql(on@[i].kind, h));
            match join_sql(TransformKind::Join { side, with, filter: JoinFilter::On(on) }, h) {
                Outcome::Done(j) => {
                    &&& all_done(parts)
                    &&& matched_by(j.join_operator) matches JoinConstraintView::On(e)
                    &&& if on@.len() == 0 {
                        e == ExprView::Value(ValueView::Boolean(true))
                    } else {
                        is_conjunction(e, values_of(parts))
                    }
                },
                Outcome::Fail(e) => speaks_for(Outcome::Fail(e), parts),
                Outcome::Undefined => speaks_for(Outcome::Undefined, parts),
            }
        }),
{
    let parts = Seq::new(on@.len(), |i: int| expr_sql(on@[i].kind, h));
    let all = kinds(on@);
    law_conjunctions(all, h);
    assert(Seq::new(all.len(), |i: int| expr_sql(all[i], h)) =~= parts);
}

/// The name of a column that is an identifier of one part.
pub open spec fn is_single_part(column: Expr, h: DialectHandler) -> bool {
    column.kind matches ExprKind::Ident(name) && ident_parts(name@, h).len() == 1
}

/// A join by common columns names each of them by its one identifier, in order, and is refused
/// exactly if one of them has not one identifier.
pub proof fn law_joins_match_by_all_columns(
    side: JoinSide,
    with: TableRef,
    using: Vec<Expr>,
    h: DialectHandler,
)
    ensures
        match join_sql(TransformKind::Join { side, with, filter: JoinFilter::Using(using) }, h) {
            Outcome::Done(j) => {
                &&& matched_by(j.join_operator) matches JoinConstraintView::Using(idents)
                &&& idents.len() == using@.len()
                &&& forall|i: int|
                    0 <= i < using@.len() ==> {
                        &&& is_single_part(#[trigger] using@[i], h)
                        &&& ident_parts(using@[i].kind->Ident_0@, h) == seq![idents[i]]
                    }
            },
            Outcome::Fail(e) => e == ErrorView::NotASinglePartIdent && exists|i: int|
                0 <= i < using@.len() && !is_single_part(#[trigger] using@[i], h),
            Outcome::Undefined => false,
        },
{
    let all = using_columns(using@, h);
    law_first_failure_decides(all);
    match collect(all) {
        Outcome::Done(idents) => {
            assert forall|i: int| 0 <= i < using@.len() implies {
                &&& is_single_part(#[trigger] using@[i], h)
                &&& ident_parts(using@[i].kind->Ident_0@, h) == seq![idents[i]]
            } by {
                assert(all[i] == Outcome::Done(idents[i]));
                assert(ident_parts(using@[i].kind->Ident_0@, h) =~= seq![idents[i]]);
            }
        },
        Outcome::Fail(e) => {
            let i = choose|i: int|
                0 <= i < all.len() && (#[trigger] all[i]) == Outcome::<IdentView>::Fail(e)
                    && all_done(all.take(i));
            assert(!is_single_part(using@[i], h));
        },
        Outcome::Undefined => {
            let i = choose|i: int|
                0 <= i < all.len() && (#[trigger] all[i]) is Undefined && all_done(all.take(i));
            assert(all[i] is Undefined);
        },
    }
}

// ---------------------------------------------------------------------------
// The clauses of a query
// ---------------------------------------------------------------------------

/// The translations of the joins of a pipeline.
pub open spec fn joins_written(pipeline: Seq<Transform>, h: DialectHandler) -> Seq<
    Outcome<JoinView>,
> {
    Seq::new(joined_with(pipeline).len(), |i: int| join_sql(joined_with(pipeline)[i], h))
}

/// A clause is the conjunction of the filters among some transforms, all of them and in order.
/// It is missing only if there are none.
pub open spec fn selects_by(
    clause: Option<ExprView>,
    transforms: Seq<Transform>,
    h: DialectHandler,
) -> bool {
    let filters = filtered_by(transforms);
    let parts = Seq::new(filters.len(), |i: int| expr_sql(filters[i], h));
    match clause {
        Some(e) => all_done(parts) && is_conjunction(e, values_of(parts)),
        None => filters.len() == 0,
    }
}

/// `WHERE` is the conjunction of the filters before the first aggregation, and `HAVING` that of
/// the filters after it, whatever the aggregation groups by. Without an aggregation all filters
/// are in `WHERE`.
pub proof fn law_filters_select_rows_or_groups(
    pipeline: Seq<Transform>,
    n: int,
    frame: Option<MaterializedFrame>,
    h: DialectHandler,
)
    requires
        aggregates_first_at(pipeline, n),
    ensures
        query_sql(pipeline, frame, h) matches Outcome::Done(q) ==> {
            &&& selects_by(q.body.selection, pipeline.take(n), h)
            &&& selects_by(q.body.having, pipeline.skip(n), h)
        },
{
    lemma_aggregates_first(pipeline, n);
    lemma_filtered_by(pipeline.take(n));
    lemma_filtered_by(pipeline.skip(n));
    law_conjunctions(filtered_by(pipeline.take(n)), h);
    law_conjunctions(filtered_by(pipeline.skip(n)), h);
}

/// An aggregation stands before a place of a pipeline.
pub open spec fn comes_after_aggregation(pipeline: Seq<Transform>, i: int) -> bool {
    exists|j: int| 0 <= j < i && (#[trigger] pipeline[j]).kind is Aggregate
}

/// A clause is a conjunction of which a condition is one of the operands.
pub open spec fn demands(clause: Option<ExprView>, condition: ExprKind, h: DialectHandler) -> bool {
    clause is Some && exists|all: Seq<ExprKind>|
        all.contains(condition) && #[trigger] is_conjunction_of(clause->0, all, h)
}

/// A filter with an aggregation before it is one of the operands of `HAVING`, and every other
/// filter is one of the operands of `WHERE`.
pub proof fn law_every_filter_is_written(
    pipeline: Seq<Transform>,
    i: int,
    frame: Option<MaterializedFrame>,
    h: DialectHandler,
)
    requires
        0 <= i < pipeline.len(),
        pipeline[i].kind is Filter,
    ensures
        query_sql(pipeline, frame, h) matches Outcome::Done(q) ==> demands(
            if comes_after_aggregation(pipeline, i) {
                q.body.having
            } else {
                q.body.selection
            },
            pipeline[i].kind->Filter_0.kind,
            h,
        ),
{
    lemma_aggregate_position(pipeline);
    let n = aggregate_position(pipeline);
    law_filters_select_rows_or_groups(pipeline, n, frame, h);
    if let Outcome::Done(q) = query_sql(pipeline, frame, h) {
        let condition = pipeline[i].kind->Filter_0.kind;
        if n < i {
            assert(pipeline[n].kind is Aggregate);
            assert(comes_after_aggregation(pipeline, i));
            assert(pipeline.skip(n)[i - n] == pipeline[i]);
            lemma_demanded(q.body.having, pipeline.skip(n), i - n, h);
        } else {
            assert(i != n);
            assert(!comes_after_aggregation(pipeline, i));
            lemma_demanded(q.body.selection, pipeline.take(n), i, h);
        }
    }
}

/// Each of the filters among some transforms is one of the operands of the clause.
proof fn lemma_demanded(
    clause: Option<ExprView>,
    transforms: Seq<Transform>,
    i: int,
    h: DialectHandler,
)
    requires
        selects_by(clause, transforms, h),
        0 <= i < transforms.len(),
        transforms[i].kind is Filter,
    ensures
        demands(clause, transforms[i].kind->Filter_0.kind, h),
{
    let is_filter = |t: Transform| t.kind is Filter;
    transforms.lemma_filter_contains(is_filter, i);
    let kept = transforms.filter(is_filter);
    let k = choose|k: int| 0 <= k < kept.len() && kept[k] == transforms[i];
    let filters = filtered_by(transforms);
    assert(filters[k] == transforms[i].kind->Filter_0.kind);
    assert(is_conjunction_of(clause->0, filters, h));
}

/// An expression is the conjunction of the translations of conditions.
pub open spec fn is_conjunction_of(
    e: ExprView,
    conditions: Seq<ExprKind>,
    h: DialectHandler,
) -> bool {
    let parts = Seq::new(conditions.len(), |i: int| expr_sql(conditions[i], h));
    all_done(parts) && is_conjunction(e, values_of(parts))
}

/// `GROUP BY` has one entry for each expression that the first aggregation groups by, in order,
/// and none without an aggregation.
pub proof fn law_groups(
    pipeline: Seq<Transform>,
    n: int,
    frame: Option<MaterializedFrame>,
    h: DialectHandler,
)
    requires
        aggregates_first_at(pipeline, n),
    ensures
        query_sql(pipeline, frame, h) matches Outcome::Done(q) ==> {
            if n == pipeline.len() {
                q.body.group_by.len() == 0
            } else {
                let by = pipeline[n].kind->Aggregate_by@;
                &&& q.body.group_by.len() == by.len()
                &&& forall|i: int|
                    0 <= i < by.len() ==> expr_sql((#[trigger] by[i]).kind, h) == Outcome::Done(
                        q.body.group_by[i],
                    )
            }
        },
{
    lemma_aggregates_first(pipeline, n);
    let all = exprs_sql(grouping(pipeline), h);
    lemma_collect_done(all);
    if let Outcome::Done(q) = query_sql(pipeline, frame, h) {
        if n < pipeline.len() {
            let by = pipeline[n].kind->Aggregate_by@;
            assert forall|i: int| 0 <= i < by.len() implies expr_sql((#[trigger] by[i]).kind, h)
                == Outcome::Done(q.body.group_by[i]) by {
                assert(all[i] == Outcome::Done(q.body.group_by[i]));
            }
        }
    }
}

/// `ORDER BY` has one entry for each column of the order of the frame, in order: its translation,
/// marked as descending exactly if it is. This does not depend on which rows are taken.
pub proof fn law_order(pipeline: Seq<Transform>, frame: MaterializedFrame, h: DialectHandler)
    ensures
        query_sql(pipeline, Some(frame), h) matches Outcome::Done(q) ==> {
            &&& q.order_by.len() == frame.sort@.len()
            &&& forall|i: int|
                0 <= i < frame.sort@.len() ==> is_order(
                    #[trigger] q.order_by[i],
                    frame.sort@[i],
                    h,
                )
        },
{
    law_orders(frame.sort@, h);
}

/// `SELECT` has one entry for each column of the frame, in order, under the name it is given.
/// It is distinct exactly if a transform keeps only distinct rows.
pub proof fn law_columns_of_a_select(
    pipeline: Seq<Transform>,
    frame: MaterializedFrame,
    h: DialectHandler,
)
    ensures
        query_sql(pipeline, Some(frame), h) matches Outcome::Done(q) ==> {
            &&& q.body.projection.len() == frame.columns@.len()
            &&& forall|i: int|
                0 <= i < frame.columns@.len() ==> is_column(
                    #[trigger] q.body.projection[i],
                    frame.columns@[i],
                    h,
                )
            &&& q.body.distinct <==> exists|i: int|
                0 <= i < pipeline.len() && (#[trigger] pipeline[i]).kind is Unique
        },
{
    let all = select_items(frame.columns@, h);
    lemma_collect_done(all);
    if let Outcome::Done(q) = query_sql(pipeline, Some(frame), h) {
        assert forall|i: int| 0 <= i < frame.columns@.len() implies is_column(
            #[trigger] q.body.projection[i],
            frame.columns@[i],
            h,
        ) by {
            assert(all[i] == Outcome::Done(q.body.projection[i]));
            law_select_columns(frame.columns@[i], h);
        }
    }
}

/// `FROM` has one entry for each table that the pipeline starts from, in order. All joins of the
/// pipeline stand at the last of them, in order.
pub proof fn law_tables_and_joins(
    pipeline: Seq<Transform>,
    frame: Option<MaterializedFrame>,
    h: DialectHandler,
)
    ensures
        query_sql(pipeline, frame, h) matches Outcome::Done(q) ==> {
            let tables = started_from(pipeline);
            let joins = joins_written(pipeline, h);
            let from = q.body.from;
            &&& from.len() == tables.len()
            &&& forall|i: int|
                0 <= i < tables.len() ==> is_table((#[trigger] from[i]).relation, tables[i], h)
            &&& forall|i: int|
                0 <= i < tables.len() - 1 ==> (#[trigger] from[i]).joins.len() == 0
            &&& joins.len() > 0 ==> tables.len() > 0
            &&& tables.len() > 0 ==> speaks_for(Outcome::Done(from.last().joins), joins)
        },
{
    lemma_started_from(pipeline, h);
    lemma_joined_with(pipeline, h);
    law_first_failure_decides(joins(pipeline, h));
    if let Outcome::Done(q) = query_sql(pipeline, frame, h) {
        assert forall|i: int| 0 <= i < started_from(pipeline).len() implies is_table(
            (#[trigger] q.body.from[i]).relation,
            started_from(pipeline)[i],
            h,
        ) by {
            assert(q.body.from[i].relation == froms(pipeline, h)[i]);
        }
    }
}

/// A number, as it is written where it is a literal.
pub open spec fn is_number(e: ExprView, n: int) -> bool {
    e matches ExprView::Value(ValueView::Number(digits, long)) && digits == int_text(n) && !long
}

/// A number, as it is written where it is a limit: marked as long if it does not fit into
/// thirty-two bits.
pub open spec fn is_limit(e: ExprView, n: int) -> bool {
    e matches ExprView::Value(ValueView::Number(digits, long)) && digits == int_text(n) && (long
        <==> n < 0 || n >= 0x1_0000_0000)
}

/// The rows before the start of the range that all ranges come to are skipped, and the rows that
/// are returned end at its end. Without a start no row is skipped, and without an end there is no
/// limit. A dialect with `TOP` has the limit there, and every other has `LIMIT`.
pub proof fn law_rows_are_limited(
    pipeline: Seq<Transform>,
    frame: Option<MaterializedFrame>,
    h: DialectHandler,
)
    ensures
        query_sql(pipeline, frame, h) matches Outcome::Done(q) ==> {
            &&& range_of(taken_from(pipeline)) matches Outcome::Done(range)
            &&& {
                let skip: int = if range.start is Some {
                    range.start->0 - 1
                } else {
                    0
                };
                &&& match q.offset {
                    Some(e) => skip != 0 && is_number(e, skip),
                    None => skip == 0,
                }
                &&& if h.use_top {
                    &&& q.limit is None
                    &&& match q.body.top {
                        Some(top) => {
                            &&& range.end is Some
                            &&& !top.with_ties && !top.percent
                            &&& top.quantity is Some
                            &&& is_number(top.quantity->0, range.end->0 - skip)
                        },
                        None => range.end is None,
                    }
                } else {
                    &&& q.body.top is None
                    &&& match q.limit {
                        Some(e) => range.end is Some && is_limit(e, range.end->0 - skip),
                        None => range.end is None,
                    }
                }
            }
        },
{
    lemma_taken_from(pipeline);
}

// ---------------------------------------------------------------------------
// Which queries are refused
// ---------------------------------------------------------------------------

/// Whether something is translated, without what it is translated to.
pub open spec fn verdict<T>(o: Outcome<T>) -> Outcome<()> {
    match o {
        Outcome::Done(_) => Outcome::Done(()),
        Outcome::Fail(e) => Outcome::Fail(e),
        Outcome::Undefined => Outcome::Undefined,
    }
}

/// What is asked of a query, in the order in which it is asked.
pub open spec fn verdicts(
    pipeline: Seq<Transform>,
    n: int,
    frame: Option<MaterializedFrame>,
    h: DialectHandler,
) -> Seq<Outcome<()>> {
    seq![
        if frame is None {
            Outcome::Fail(ErrorView::FrameNotProvided)
        } else {
            Outcome::Done(())
        },
        verdict(collect(joins_written(pipeline, h))),
        if joined_with(pipeline).len() > 0 && started_from(pipeline).len() == 0 {
            Outcome::Fail(ErrorView::JoinWithoutFrom)
        } else {
            Outcome::Done(())
        },
        verdict(filter_sql(filtered_by(pipeline.take(n)), h)),
        verdict(filter_sql(filtered_by(pipeline.skip(n)), h)),
        verdict(range_of(taken_from(pipeline))),
        if range_of(taken_from(pipeline)) is Done {
            verdict(skip_and_limit(range_of(taken_from(pipeline))->Done_0))
        } else {
            Outcome::Done(())
        },
        verdict(
            collect(Seq::new(
                frame->0.sort@.len(),
                |i: int| expr_sql(frame->0.sort@[i].column.kind, h),
            )),
        ),
        verdict(
            collect(Seq::new(
                frame->0.columns@.len(),
                |i: int| expr_sql(frame->0.columns@[i].kind, h),
            )),
        ),
        if n < pipeline.len() {
            verdict(
                collect(Seq::new(
                    pipeline[n].kind->Aggregate_by@.len(),
                    |i: int| expr_sql(pipeline[n].kind->Aggregate_by@[i].kind, h),
                )),
            )
        } else {
            Outcome::Done(())
        },
    ]
}

/// Lists of outcomes that succeed and fail alike come to the same verdict.
proof fn lemma_same_verdict<T, U>(a: Seq<Outcome<T>>, b: Seq<Outcome<U>>)
    requires
        a.len() == b.len(),
        forall|i: int| 0 <= i < a.len() ==> verdict(#[trigger] a[i]) == verdict(b[i]),
    ensures
        verdict(collect(a)) == verdict(collect(b)),
    decreases a.len(),
{
    if a.len() > 0 {
        let (p, q) = (a.drop_last(), b.drop_last());
        assert forall|i: int| 0 <= i < p.len() implies verdict(#[trigger] p[i]) == verdict(q[i]) by {
            assert(verdict(a[i]) == verdict(b[i]));
        }
        lemma_same_verdict(p, q);
        assert(verdict(a[a.len() - 1]) == verdict(b[a.len() - 1]));
    }
}

/// The first that is no success speaks for all.
proof fn lemma_first<T>(s: Seq<Outcome<T>>, i: int)
    requires
        0 <= i < s.len(),
        forall|j: int| 0 <= j < i ==> (#[trigger] s[j]) is Done,
        s[i] !is Done,
    ensures
        s[i] is Fail ==> speaks_for(Outcome::<Seq<T>>::Fail(s[i]->Fail_0), s),
        s[i] is Undefined ==> speaks_for(Outcome::<Seq<T>>::Undefined, s),
{
    assert(all_done(s.take(i)));
}

/// What is asked of a query, over the clauses.
proof fn lemma_verdicts(
    pipeline: Seq<Transform>,
    n: int,
    frame: Option<MaterializedFrame>,
    h: DialectHandler,
)
    requires
        aggregates_first_at(pipeline, n),
    ensures
        ({
            let all = verdicts(pipeline, n, frame, h);
            let range = range_of(ranges(pipeline));
            &&& all.len() == 10
            &&& all[0] == if frame is None {
                Outcome::<()>::Fail(ErrorView::FrameNotProvided)
            } else {
                Outcome::Done(())
            }
            &&& all[1] == verdict(collect(joins(pipeline, h)))
            &&& all[2] == if joins(pipeline, h).len() > 0 && froms(pipeline, h).len() == 0 {
                Outcome::<()>::Fail(ErrorView::JoinWithoutFrom)
            } else {
                Outcome::Done(())
            }
            &&& all[3] == verdict(filter_sql(where_conditions(pipeline), h))
            &&& all[4] == verdict(filter_sql(having_conditions(pipeline), h))
            &&& verdict(limits(pipeline)) == if all[5] is Done {
                all[6]
            } else {
                all[5]
            }
            &&& all[5] !is Done ==> all[6] is Done
            &&& all[7] == verdict(collect(sorts_sql(frame->0.sort@, h)))
            &&& all[8] == verdict(collect(select_items(frame->0.columns@, h)))
            &&& all[9] == verdict(collect(exprs_sql(grouping(pipeline), h)))
            &&& collect(joins(pipeline, h)) is Done ==> collect(joins(pipeline, h))->Done_0.len()
                == joins(pipeline, h).len()
        }),
{
    let all = verdicts(pipeline, n, frame, h);
    lemma_aggregates_first(pipeline, n);
    lemma_started_from(pipeline, h);
    lemma_joined_with(pipeline, h);
    lemma_collect_done(joins_written(pipeline, h));
    lemma_filtered_by(pipeline.take(n));
    lemma_filtered_by(pipeline.skip(n));
    lemma_taken_from(pipeline);
    lemma_same_verdict(
        sorts_sql(frame->0.sort@, h),
        Seq::new(frame->0.sort@.len(), |i: int| expr_sql(frame->0.sort@[i].column.kind, h)),
    );
    lemma_same_verdict(
        select_items(frame->0.columns@, h),
        Seq::new(frame->0.columns@.len(), |i: int| expr_sql(frame->0.columns@[i].kind, h)),
    );
    if n < pipeline.len() {
        let by = pipeline[n].kind->Aggregate_by@;
        lemma_same_verdict(
            exprs_sql(grouping(pipeline), h),
            Seq::new(by.len(), |i: int| expr_sql(by[i].kind, h)),
        );
        assert(Seq::new(by.len(), |i: int| expr_sql(by[i].kind, h)) =~= Seq::new(
            pipeline[n].kind->Aggregate_by@.len(),
            |i: int| expr_sql(pipeline[n].kind->Aggregate_by@[i].kind, h),
        ));
    } else {
        assert(exprs_sql(grouping(pipeline), h) =~= seq![]);
    }
}

/// What comes of a query, over the clauses.
proof fn lemma_query_verdict(
    pipeline: Seq<Transform>,
    frame: Option<MaterializedFrame>,
    h: DialectHandler,
)
    ensures
        verdict(query_sql(pipeline, frame, h)) == ({
            let joined = collect(joins(pipeline, h));
            let selection = filter_sql(where_conditions(pipeline), h);
            let having = filter_sql(having_conditions(pipeline), h);
            let order_by = collect(sorts_sql(frame->0.sort@, h));
            let projection = collect(select_items(frame->0.columns@, h));
            if frame is None {
                Outcome::Fail(ErrorView::FrameNotProvided)
            } else if joined !is Done {
                verdict(joined)
            } else if joined->Done_0.len() > 0 && froms(pipeline, h).len() == 0 {
                Outcome::Fail(ErrorView::JoinWithoutFrom)
            } else if selection !is Done {
                verdict(selection)
            } else if having !is Done {
                verdict(having)
            } else if limits(pipeline) !is Done {
                verdict(limits(pipeline))
            } else if order_by !is Done {
                verdict(order_by)
            } else if projection !is Done {
                verdict(projection)
            } else {
                verdict(collect(exprs_sql(grouping(pipeline), h)))
            }
        }),
{
}

/// A query is translated exactly if everything that is asked of it holds, and otherwise it is
/// refused for the first that does not: that it has a frame; its joins; that there is a table to
/// join to; the filters of rows and of groups; its ranges; its order, columns and groups.
pub proof fn law_first_clause_that_fails(
    pipeline: Seq<Transform>,
    n: int,
    frame: Option<MaterializedFrame>,
    h: DialectHandler,
)
    requires
        aggregates_first_at(pipeline, n),
    ensures
        match query_sql(pipeline, frame, h) {
            Outcome::Done(_) => all_done(verdicts(pipeline, n, frame, h)),
            Outcome::Fail(e) => speaks_for(Outcome::Fail(e), verdicts(pipeline, n, frame, h)),
            Outcome::Undefined => speaks_for(Outcome::Undefined, verdicts(pipeline, n, frame, h)),
        },
{
    let all = verdicts(pipeline, n, frame, h);
    lemma_verdicts(pipeline, n, frame, h);
    lemma_query_verdict(pipeline, frame, h);
    lemma_spoken_for(query_sql(pipeline, frame, h), all);
}

/// The verdict on something is that of the first of ten that is no success, if there is one.
proof fn lemma_spoken_for<T>(o: Outcome<T>, all: Seq<Outcome<()>>)
    requires
        all.len() == 10,
        verdict(o) == ({
            if all[0] !is Done {
                all[0]
            } else if all[1] !is Done {
                all[1]
            } else if all[2] !is Done {
                all[2]
            } else if all[3] !is Done {
                all[3]
            } else if all[4] !is Done {
                all[4]
            } else if all[5] !is Done {
                all[5]
            } else if all[6] !is Done {
                all[6]
            } else if all[7] !is Done {
                all[7]
            } else if all[8] !is Done {
                all[8]
            } else {
                all[9]
            }
        }),
    ensures
        match o {
            Outcome::Done(_) => all_done(all),
            Outcome::Fail(e) => speaks_for(Outcome::Fail(e), all),
            Outcome::Undefined => speaks_for(Outcome::Undefined, all),
        },
{
    if o !is Done {
        let i: int = if all[0] !is Done {
            0
        } else if all[1] !is Done {
            1
        } else if all[2] !is Done {
            2
        } else if all[3] !is Done {
            3
        } else if all[4] !is Done {
            4
        } else if all[5] !is Done {
            5
        } else if all[6] !is Done {
            6
        } else if all[7] !is Done {
            7
        } else if all[8] !is Done {
            8
        } else {
            9
        };
        lemma_first(all, i);
    }
}

// ---------------------------------------------------------------------------
// Tables as queries with names
// ---------------------------------------------------------------------------

/// Whether a table among others is translated: all but the last need a name.
pub open spec fn tables_written(tables: Seq<AtomicTable>, h: DialectHandler) -> Seq<
    Outcome<SelectQueryView>,
> {
    Seq::new(
        tables.len(),
        |i: int|
            if i < tables.len() - 1 && tables[i].name is None {
                Outcome::Undefined
            } else {
                query_sql(tables[i].pipeline@, tables[i].frame, h)
            },
    )
}

/// The last of some tables is the query, and the others come before it in order, each under its
/// name. Without tables there is nothing to translate, and otherwise the first table that fails
/// decides.
pub proof fn law_tables(tables: Seq<AtomicTable>, h: DialectHandler)
    ensures
        match tables_sql(tables, h) {
            Outcome::Done(q) => {
                &&& tables.len() > 0
                &&& tables_written(tables, h).last() == Outcome::Done(q.query)
                &&& q.with is None <==> tables.len() == 1
                &&& q.with matches Some(with) ==> {
                    &&& !with.recursive
                    &&& with.cte_tables.len() == tables.len() - 1
                    &&& forall|i: int|
                        0 <= i < tables.len() - 1 ==> {
                            &&& tables[i].name is Some
                            &&& is_quoted_as_needed(
                                (#[trigger] with.cte_tables[i]).alias,
                                tables[i].name->0.name@,
                                h,
                            )
                            &&& tables_written(tables, h)[i] == Outcome::Done(
                                with.cte_tables[i].query,
                            )
                        }
                }
            },
            Outcome::Fail(e) => if tables.len() == 0 {
                e == ErrorView::NoTables
            } else {
                speaks_for(Outcome::Fail(e), tables_written(tables, h))
            },
            Outcome::Undefined => speaks_for(Outcome::Undefined, tables_written(tables, h)),
        },
{
    if tables.len() > 0 {
        let all = tables_written(tables, h);
        let named = tables.drop_last();
        let ctes = ctes_sql(named, h);
        lemma_collect_done(ctes);
        law_first_failure_decides(ctes);
        assert forall|i: int| 0 <= i < ctes.len() implies verdict(#[trigger] ctes[i]) == verdict(
            all[i],
        ) by {
            assert(ctes[i] == cte_sql(tables[i], h));
        }
        match collect(ctes) {
            Outcome::Done(v) => {
                assert forall|i: int| 0 <= i < v.len() implies {
                    &&& tables[i].name is Some
                    &&& is_quoted_as_needed(
                        (#[trigger] v[i]).alias,
                        tables[i].name->0.name@,
                        h,
                    )
                    &&& all[i] == Outcome::Done(v[i].query)
                } by {
                    assert(ctes[i] == Outcome::Done(v[i]));
                    assert(ctes[i] == cte_sql(tables[i], h));
                    law_parts_are_quoted_as_needed(tables[i].name->0.name@, h);
                }
                if all.last() !is Done {
                    let last = all.len() - 1;
                    assert forall|j: int| 0 <= j < last implies (#[trigger] all[j]) is Done by {
                        assert(v[j] == v[j]);
                        assert(ctes[j] is Done);
                        assert(verdict(ctes[j]) == verdict(all[j]));
                    }
                    lemma_first(all, last);
                }
            },
            failed => {
                let i = if failed is Fail {
                    choose|i: int|
                        0 <= i < ctes.len() && (#[trigger] ctes[i]) == Outcome::<CteView>::Fail(failed->Fail_0) && all_done(ctes.take(i))
                } else {
                    choose|i: int|
                        0 <= i < ctes.len() && (#[trigger] ctes[i]) is Undefined && all_done(
                            ctes.take(i),
                        )
                };
                assert(verdict(ctes[i]) == verdict(all[i]));
                assert forall|j: int| 0 <= j < i implies (#[trigger] all[j]) is Done by {
                    assert(ctes.take(i)[j] is Done);
                    assert(verdict(ctes[j]) == verdict(all[j]));
                }
                lemma_first(all, i);
            },
        }
    }
}

// ---------------------------------------------------------------------------
// The text of a query
// ---------------------------------------------------------------------------

/// Every occurrence of a text is replaced by another, found from the left, and nothing else is
/// touched.
pub open spec fn is_replaced(
    before: Seq<char>,
    from: Seq<char>,
    to: Seq<char>,
    after: Seq<char>,
) -> bool {
    exists|pieces: Seq<Seq<char>>|
        {
            &&& #[trigger] pieces_between(pieces, from)
            &&& before == with_between(pieces, from)
            &&& after == with_between(pieces, to)
        }
}

/// In any text every two opening braces with a space between them are put together, and then
/// every two closing ones.
pub proof fn law_braces_of_any_text(s: Seq<char>)
    ensures
        exists|opened: Seq<char>|
            {
                &&& #[trigger] is_replaced(s, "{ {"@, "{{"@, opened)
                &&& is_replaced(opened, "} }"@, "}}"@, braced(s))
            },
{
    reveal_strlit("{ {");
    reveal_strlit("} }");
    let opened = replaced(s, "{ {"@, "{{"@);
    law_every_occurrence_is_replaced(s, "{ {"@, "{{"@);
    law_every_occurrence_is_replaced(opened, "} }"@, "}}"@);
    assert(is_replaced(s, "{ {"@, "{{"@, opened));
    assert(is_replaced(opened, "} }"@, "}}"@, braced(s)));
}

/// The text of a query is the printed query as it is laid out, in which every two opening braces
/// with a space between them are put together, and then every two closing ones.
pub proof fn law_braces_are_put_together(query: QueryView)
    ensures
        exists|opened: Seq<char>|
            {
                &&& #[trigger] is_replaced(laid_out(query_text(query)), "{ {"@, "{{"@, opened)
                &&& is_replaced(opened, "} }"@, "}}"@, finished(query))
            },
{
    law_braces_of_any_text(laid_out(query_text(query)));
}

// ---------------------------------------------------------------------------
// From a query to its SQL
// ---------------------------------------------------------------------------

/// Tables are those of a query, in order, and then its main pipeline, which has no name.
pub open spec fn are_tables_of(tables: Seq<Table>, query: Query) -> bool {
    &&& tables.len() == query.tables@.len() + 1
    &&& forall|i: int| 0 <= i < query.tables@.len() ==> tables[i] == #[trigger] query.tables@[i]
    &&& tables.last().pipeline == query.main_pipeline
    &&& tables.last().id is None
    &&& tables.last().name@.len() == 0
}

/// The identifier of a table, if it is declared.
pub open spec fn declared_at(table: AtomicTable) -> Option<usize> {
    if table.name is Some {
        table.name->0.declared_at
    } else {
        None
    }
}

/// Each table comes out of the last pass with its name and the frame that the pass finds. The
/// pass works on the pipeline of the table, with the declarations that the table before left and
/// the identifier of the table.
pub open spec fn come_out<M>(
    materialize: M,
    tables: Seq<AtomicTable>,
    contexts: Seq<MaterializationContext>,
    out: Seq<AtomicTable>,
) -> bool where
    M: Fn(Vec<Transform>, MaterializationContext, Option<usize>) -> Result<
        (Vec<Transform>, MaterializedFrame, MaterializationContext),
        Error,
    >,
 {
    &&& out.len() == tables.len()
    &&& contexts.len() == tables.len() + 1
    &&& forall|i: int|
        0 <= i < tables.len() ==> {
            &&& out[i].name == (#[trigger] tables[i]).name
            &&& out[i].frame is Some
            &&& call_ensures(
                materialize,
                (tables[i].pipeline, contexts[i], declared_at(tables[i])),
                Ok((out[i].pipeline, out[i].frame->0, contexts[i + 1])),
            )
        }
}

/// Tables that are materialized come out of the last pass, whether or not they have names.
pub proof fn law_tables_come_out<M>(
    materialize: M,
    tables: Seq<AtomicTable>,
    contexts: Seq<MaterializationContext>,
    out: Seq<AtomicTable>,
) where
    M: Fn(Vec<Transform>, MaterializationContext, Option<usize>) -> Result<
        (Vec<Transform>, MaterializedFrame, MaterializationContext),
        Error,
    >,

    requires
        tables_materialized(materialize, tables, contexts, out),
    ensures
        come_out(materialize, tables, contexts, out),
{
    assert forall|i: int| 0 <= i < tables.len() implies {
        &&& out[i].name == (#[trigger] tables[i]).name
        &&& out[i].frame is Some
        &&& call_ensures(
            materialize,
            (tables[i].pipeline, contexts[i], declared_at(tables[i])),
            Ok((out[i].pipeline, out[i].frame->0, contexts[i + 1])),
        )
    } by {
        assert(table_materialized(
            materialize,
            tables[i],
            contexts[i],
            contexts[i + 1],
            out[i],
        ));
    }
}

/// A query is translated step by step: its tables are cut, starting from the declarations of the
/// query; what is cut comes out of the last pass, starting from the declarations that cutting
/// leaves; and this is translated in the dialect of the query.
pub proof fn law_steps_of_a_translation<G, D, M>(
    un_group: G,
    take_to_distinct: D,
    materialize: M,
    query: Query,
    context: Context,
    sql: SqlQuery,
) where
    G: Fn(Vec<Transform>) -> Result<Vec<Transform>, Error>,
    D: Fn(Vec<Transform>, MaterializationContext) -> Result<
        (Vec<Transform>, MaterializationContext),
        Error,
    >,
    M: Fn(Vec<Transform>, MaterializationContext, Option<usize>) -> Result<
        (Vec<Transform>, MaterializedFrame, MaterializationContext),
        Error,
    >,

    requires
        translated(un_group, take_to_distinct, materialize, query, context, Ok(sql)),
    ensures
        exists|
            tables: Seq<Table>,
            stages: Seq<Stage>,
            atomics: Seq<AtomicTable>,
            contexts: Seq<MaterializationContext>,
            out: Seq<AtomicTable>,
        |
            {
                &&& are_tables_of(tables, query)
                &&& #[trigger] cut_tables(
                    un_group,
                    take_to_distinct,
                    tables,
                    MaterializationContext { declarations: context.declarations },
                    stages,
                    atomics,
                )
                &&& #[trigger] come_out(materialize, atomics, contexts, out)
                &&& contexts[0] == stages.last().context
                &&& tables_sql(out, query.def.dialect.handled()) == Outcome::Done(sql@)
            },
{
    let h = query.def.dialect.handled();
    let start = MaterializationContext { declarations: context.declarations };
    let r = Ok::<SqlQuery, Error>(sql);
    let tables = choose|tables: Seq<Table>| #[trigger]
        query_tables(query, tables) && tables_translated(
            un_group,
            take_to_distinct,
            materialize,
            tables,
            start,
            h,
            r,
        );
    let (atomics, after) = choose|atomics: Seq<AtomicTable>, after: MaterializationContext|
        #[trigger] atomized(un_group, take_to_distinct, tables, start, atomics, after)
            && atomics_translated(materialize, atomics, after, h, r);
    let stages = choose|stages: Seq<Stage>| #[trigger]
        cut_tables(un_group, take_to_distinct, tables, start, stages, atomics)
            && stages.last().context == after;
    let out = choose|out: Seq<AtomicTable>| #[trigger]
        materialized(materialize, atomics, after, out) && agrees(r, tables_sql(out, h));
    let contexts = choose|contexts: Seq<MaterializationContext>| #[trigger]
        tables_materialized(materialize, atomics, contexts, out) && contexts[0] == after;
    lemma_tables_of(query, tables);
    law_tables_come_out(materialize, atomics, contexts, out);
}

/// The tables of a query.
proof fn lemma_tables_of(query: Query, tables: Seq<Table>)
    requires
        query_tables(query, tables),
    ensures
        are_tables_of(tables, query),
{
    assert forall|i: int| 0 <= i < query.tables@.len() implies tables[i]
        == #[trigger] query.tables@[i] by {
        assert(tables.drop_last()[i] == tables[i]);
    }
}

/// Some tables of a query are cut, and the next one is refused.
pub open spec fn stops_at_cutting<G, D>(
    un_group: G,
    take_to_distinct: D,
    tables: Seq<Table>,
    context: MaterializationContext,
    e: Error,
) -> bool where
    G: Fn(Vec<Transform>) -> Result<Vec<Transform>, Error>,
    D: Fn(Vec<Transform>, MaterializationContext) -> Result<
        (Vec<Transform>, MaterializationContext),
        Error,
    >,
 {
    exists|n: int, stages: Seq<Stage>, atomics: Seq<AtomicTable>|
        0 <= n < tables.len() && #[trigger] cut_tables(
            un_group,
            take_to_distinct,
            tables.take(n),
            context,
            stages,
            atomics,
        ) && cut_fails(un_group, take_to_distinct, tables[n], stages.last(), e)
}

/// Some of the cut tables come out of the last pass, and the pass fails on the next one.
pub open spec fn stops_at_the_last_pass<M>(
    materialize: M,
    tables: Seq<AtomicTable>,
    context: MaterializationContext,
    e: Error,
) -> bool where
    M: Fn(Vec<Transform>, MaterializationContext, Option<usize>) -> Result<
        (Vec<Transform>, MaterializedFrame, MaterializationContext),
        Error,
    >,
 {
    exists|n: int, contexts: Seq<MaterializationContext>, out: Seq<AtomicTable>|
        0 <= n < tables.len() && #[trigger] come_out(materialize, tables.take(n), contexts, out)
            && contexts[0] == context && call_ensures(
            materialize,
            (tables[n].pipeline, contexts[n], declared_at(tables[n])),
            Err(e),
        )
}

/// A query is refused only where a step fails: for the first table that cannot be cut, for the
/// first that the last pass fails on, or for what cannot be translated of what comes out.
pub proof fn law_refused_queries<G, D, M>(
    un_group: G,
    take_to_distinct: D,
    materialize: M,
    query: Query,
    context: Context,
    e: Error,
) where
    G: Fn(Vec<Transform>) -> Result<Vec<Transform>, Error>,
    D: Fn(Vec<Transform>, MaterializationContext) -> Result<
        (Vec<Transform>, MaterializationContext),
        Error,
    >,
    M: Fn(Vec<Transform>, MaterializationContext, Option<usize>) -> Result<
        (Vec<Transform>, MaterializedFrame, MaterializationContext),
        Error,
    >,

    requires
        translated(un_group, take_to_distinct, materialize, query, context, Err(e)),
    ensures
        exists|tables: Seq<Table>|
            #[trigger] are_tables_of(tables, query) && {
                let start = MaterializationContext { declarations: context.declarations };
                ||| stops_at_cutting(un_group, take_to_distinct, tables, start, e)
                ||| exists|stages: Seq<Stage>, atomics: Seq<AtomicTable>|
                    #[trigger] cut_tables(
                        un_group,
                        take_to_distinct,
                        tables,
                        start,
                        stages,
                        atomics,
                    ) && stops_after_cutting(
                        materialize,
                        atomics,
                        stages.last().context,
                        query.def.dialect.handled(),
                        e,
                    )
            },
{
    let h = query.def.dialect.handled();
    let start = MaterializationContext { declarations: context.declarations };
    let r = Err::<SqlQuery, Error>(e);
    let tables = choose|tables: Seq<Table>| #[trigger]
        query_tables(query, tables) && tables_translated(
            un_group,
            take_to_distinct,
            materialize,
            tables,
            start,
            h,
            r,
        );
    lemma_tables_of(query, tables);
    if atomizing_fails(un_group, take_to_distinct, tables, start, e) {
        assert(stops_at_cutting(un_group, take_to_distinct, tables, start, e));
    } else {
        let (atomics, after) = choose|atomics: Seq<AtomicTable>, after: MaterializationContext|
            #[trigger] atomized(un_group, take_to_distinct, tables, start, atomics, after)
                && atomics_translated(materialize, atomics, after, h, r);
        let stages = choose|stages: Seq<Stage>| #[trigger]
            cut_tables(un_group, take_to_distinct, tables, start, stages, atomics)
                && stages.last().context == after;
        if materializing_fails(materialize, atomics, after, e) {
            let (n, contexts, out) = choose|
                n: int,
                contexts: Seq<MaterializationContext>,
                out: Seq<AtomicTable>,
            |
                0 <= n < atomics.len() && #[trigger] tables_materialized(
                    materialize,
                    atomics.take(n),
                    contexts,
                    out,
                ) && contexts[0] == after && call_ensures(
                    materialize,
                    (atomics[n].pipeline, contexts[n], table_id(atomics[n])),
                    Err(e),
                );
            law_tables_come_out(materialize, atomics.take(n), contexts, out);
            assert(stops_at_the_last_pass(materialize, atomics, after, e));
        } else {
            let out = choose|out: Seq<AtomicTable>| #[trigger]
                materialized(materialize, atomics, after, out) && agrees(r, tables_sql(out, h));
            let contexts = choose|contexts: Seq<MaterializationContext>| #[trigger]
                tables_materialized(materialize, atomics, contexts, out) && contexts[0] == after;
            law_tables_come_out(materialize, atomics, contexts, out);
        }
        assert(stops_after_cutting(materialize, atomics, after, h, e));
    }
}

/// The last pass fails on one of the cut tables, or what comes out of it cannot be translated.
pub open spec fn stops_after_cutting<M>(
    materialize: M,
    atomics: Seq<AtomicTable>,
    context: MaterializationContext,
    h: DialectHandler,
    e: Error,
) -> bool where
    M: Fn(Vec<Transform>, MaterializationContext, Option<usize>) -> Result<
        (Vec<Transform>, MaterializedFrame, MaterializationContext),
        Error,
    >,
 {
    ||| stops_at_the_last_pass(materialize, atomics, context, e)
    ||| exists|contexts: Seq<MaterializationContext>, out: Seq<AtomicTable>|
        #[trigger] come_out(materialize, atomics, contexts, out) && contexts[0] == context
            && tables_sql(out, h) == Outcome::<QueryView>::Fail(e@)
}

} // verus!
