//! Reading translated expressions back: laws that say, for each sort of expression, what its
//! translation has to do with the translations of its parts.

use crate::ast::{
    BinOp, ColumnSort, DialectHandler, Expr, ExprKind, InterpolateItem, Interval, Literal, Range,
    UnOp, WindowKind, Windowed,
};
use crate::error::{
    all_done, collect, law_first_failure_decides, lemma_collect_done, speaks_for, ErrorView,
    Outcome,
};
use crate::expr::{
    all_of, concatenated, expr_sql, exprs_sql, f_string_args, filter_sql, func_call,
    lemma_all_of_step, operand, order_by, s_string_texts, select_item, shown, sorts_sql,
    window_frame, written_frame,
};
use crate::ident::{column_parts, is_quoted_as_needed, law_parts_are_quoted_as_needed};
use crate::print::{expr_text, window_text};
use crate::range::bound_complaint;
use crate::sql::{
    BinaryOperator, DataType, DateTimeField, ExprView, IdentView, OrderByView, SelectItemView,
    ValueView, WindowFrame, WindowFrameBound, WindowFrameUnits, WindowSpecView,
};
use crate::text::int_text;
use vstd::prelude::*;

verus! {

// ---------------------------------------------------------------------------
// Operators
// ---------------------------------------------------------------------------

/// What an operator of SQL computes, where PRQL has it.
pub open spec fn computes(op: BinaryOperator) -> Option<BinOp> {
    match op {
        BinaryOperator::Plus => Some(BinOp::Add),
        BinaryOperator::Minus => Some(BinOp::Sub),
        BinaryOperator::Multiply => Some(BinOp::Mul),
        BinaryOperator::Divide => Some(BinOp::Div),
        BinaryOperator::Modulo => Some(BinOp::Mod),
        BinaryOperator::Gt => Some(BinOp::Gt),
        BinaryOperator::Lt => Some(BinOp::Lt),
        BinaryOperator::GtEq => Some(BinOp::Gte),
        BinaryOperator::LtEq => Some(BinOp::Lte),
        BinaryOperator::Eq => Some(BinOp::Eq),
        BinaryOperator::NotEq => Some(BinOp::Ne),
        BinaryOperator::And => Some(BinOp::And),
        BinaryOperator::Or => Some(BinOp::Or),
        _ => None,
    }
}

/// An operand under an operator: in parentheses exactly if it holds together less strongly than
/// the operator binds.
pub open spec fn is_operand(written: ExprView, e: ExprView, strength: i32) -> bool {
    if e.strength() < strength {
        written matches ExprView::Nested(inner) && *inner == e
    } else {
        written == e
    }
}

/// The literal of null.
pub open spec fn is_null_literal(e: Expr) -> bool {
    e.kind matches ExprKind::Literal(l) && l is Null
}

/// An operand is put in parentheses exactly if it holds together less strongly than it has to.
pub proof fn law_operands(o: Outcome<ExprView>, min_strength: i32)
    ensures
        o matches Outcome::Done(e) ==> (operand(o, min_strength as int) matches Outcome::Done(x)
            && is_operand(x, e, min_strength)),
        o !is Done ==> operand(o, min_strength as int) == o,
{
}

/// An operation is written with the operator that computes it, between its operands in order. It
/// fails if one of them does, the left one first.
pub proof fn law_operations(op: BinOp, left: Box<Expr>, right: Box<Expr>, h: DialectHandler)
    requires
        op != BinOp::Coalesce,
        !((op == BinOp::Eq || op == BinOp::Ne) && (is_null_literal(*left) || is_null_literal(
            *right,
        ))),
    ensures
        ({
            let written = expr_sql(ExprKind::Binary { left, op, right }, h);
            match (expr_sql(left.kind, h), expr_sql(right.kind, h)) {
                (Outcome::Done(l), Outcome::Done(r)) => {
                    &&& written matches Outcome::Done(ExprView::BinaryOp { left: x, op: o, right: y })
                    &&& computes(o) == Some(op)
                    &&& is_operand(*x, l, o.strength())
                    &&& is_operand(*y, r, o.strength())
                },
                (Outcome::Done(_), other) => written == other,
                (other, _) => written == other,
            }
        }),
{
}

/// Coalescing has no operator in SQL, and has to be gone before.
pub proof fn law_coalescing_is_not_written(left: Box<Expr>, right: Box<Expr>, h: DialectHandler)
    ensures
        expr_sql(ExprKind::Binary { left, op: BinOp::Coalesce, right }, h) is Undefined,
{
}

/// A comparison with null is a test of the other side, and fails if that does.
pub proof fn law_null_comparisons(op: BinOp, left: Box<Expr>, right: Box<Expr>, h: DialectHandler)
    requires
        op == BinOp::Eq || op == BinOp::Ne,
        is_null_literal(*left) || is_null_literal(*right),
    ensures
        ({
            let written = expr_sql(ExprKind::Binary { left, op, right }, h);
            let other = if is_null_literal(*left) {
                right
            } else {
                left
            };
            match expr_sql(other.kind, h) {
                Outcome::Done(e) => if op == BinOp::Eq {
                    &&& written matches Outcome::Done(ExprView::IsNull(x))
                    &&& is_operand(*x, e, written->Done_0.strength())
                } else {
                    &&& written matches Outcome::Done(ExprView::IsNotNull(x))
                    &&& is_operand(*x, e, written->Done_0.strength())
                },
                failed => written == failed,
            }
        }),
{
}

/// A negation is written before its operand, with a sign for numbers and `NOT` for conditions.
pub proof fn law_negations(op: UnOp, expr: Box<Expr>, h: DialectHandler)
    ensures
        ({
            let written = expr_sql(ExprKind::Unary { op, expr }, h);
            match expr_sql(expr.kind, h) {
                Outcome::Done(e) => {
                    &&& written matches Outcome::Done(ExprView::UnaryOp { op: o, expr: x })
                    &&& o is Minus || o is Not
                    &&& o is Minus <==> op is Neg
                    &&& is_operand(*x, e, o.strength())
                },
                failed => written == failed,
            }
        }),
{
}

// ---------------------------------------------------------------------------
// Values
// ---------------------------------------------------------------------------

/// A column is written as its identifiers.
pub proof fn law_columns(name: String, h: DialectHandler)
    ensures
        expr_sql(ExprKind::Ident(name), h) == Outcome::Done(
            ExprView::CompoundIdentifier(column_parts(name@, h)),
        ),
{
}

/// A literal is written as a literal of its type with its value.
pub proof fn law_literals(l: Literal, h: DialectHandler)
    ensures
        expr_sql(ExprKind::Literal(l), h) matches Outcome::Done(e) && match e {
            ExprView::Value(ValueView::Null) => l is Null,
            ExprView::Value(ValueView::Boolean(b)) => l == Literal::Boolean(b),
            ExprView::Value(ValueView::SingleQuotedString(s)) => l matches Literal::String(text)
                && text@ == s,
            ExprView::Value(ValueView::Number(digits, long)) => !long && match l {
                Literal::Integer(n) => digits == int_text(n as int),
                Literal::Float(text) => digits == text@,
                _ => false,
            },
            ExprView::TypedString { data_type, value } => match data_type {
                DataType::Date => l matches Literal::Date(text) && text@ == value,
                DataType::Time => l matches Literal::Time(text) && text@ == value,
                DataType::Timestamp => l matches Literal::Timestamp(text) && text@ == value,
            },
            _ => false,
        },
{
}

/// The unit that a field counts.
pub open spec fn counts(field: DateTimeField) -> Seq<char> {
    match field {
        DateTimeField::Year => "years"@,
        DateTimeField::Month => "months"@,
        DateTimeField::Day => "days"@,
        DateTimeField::Hour => "hours"@,
        DateTimeField::Minute => "minutes"@,
        DateTimeField::Second => "seconds"@,
    }
}

/// An interval is written with its number and the field that counts its unit, and refused with
/// its unit if no field does.
pub proof fn law_intervals(interval: Interval, h: DialectHandler)
    ensures
        match expr_sql(ExprKind::Interval(interval), h) {
            Outcome::Done(e) => {
                &&& e matches ExprView::Value(ValueView::Interval { value, leading_field })
                &&& counts(leading_field) == interval.unit@
                &&& *value == ExprView::Value(ValueView::Number(int_text(interval.n as int), false))
            },
            Outcome::Fail(e) => e == ErrorView::UnsupportedIntervalUnit(interval.unit@) && forall|
                field: DateTimeField,
            | #[trigger] counts(field) != interval.unit@,
            Outcome::Undefined => false,
        },
{
    let unit = interval.unit@;
    assert forall|field: DateTimeField| expr_sql(ExprKind::Interval(interval), h) is Fail implies
        #[trigger] counts(field) != unit by {}
    reveal_strlit("years");
    reveal_strlit("months");
    reveal_strlit("days");
    reveal_strlit("hours");
    reveal_strlit("minutes");
    reveal_strlit("seconds");
}

/// A range between two values is written as both with `AND` between them. It needs both bounds,
/// and the start is looked at first.
pub proof fn law_ranges(range: Range, h: DialectHandler)
    ensures
        ({
            let written = expr_sql(ExprKind::Range(range), h);
            let missing = Outcome::<ExprView>::Fail(ErrorView::RangeRequiresBothBounds);
            if range.start is None {
                written == missing
            } else {
                match expr_sql(range.start->0.kind, h) {
                    Outcome::Done(start) => if range.end is None {
                        written == missing
                    } else {
                        match expr_sql(range.end->0.kind, h) {
                            Outcome::Done(end) => {
                                &&& written matches Outcome::Done(ExprView::Identifier(text))
                                &&& text.quote_style is None
                                &&& text.value == expr_text(start) + " AND "@ + expr_text(end)
                            },
                            failed => written == failed,
                        }
                    },
                    failed => written == failed,
                }
            }
        }),
{
}

/// What an interpolated string holds at a place, once its expressions are translated.
pub open spec fn translated_item(item: InterpolateItem, h: DialectHandler) -> Outcome<ExprView> {
    match item {
        InterpolateItem::String(s) => Outcome::Done(
            ExprView::Value(ValueView::SingleQuotedString(s@)),
        ),
        InterpolateItem::Expr(e) => expr_sql(e.kind, h),
    }
}

/// Texts, from the first on.
pub open spec fn laid_end_to_end(texts: Seq<Seq<char>>) -> Seq<char>
    decreases texts.len(),
{
    if texts.len() == 0 {
        seq![]
    } else {
        texts[0] + laid_end_to_end(texts.skip(1))
    }
}

/// One more text at the end.
proof fn lemma_end_to_end(a: Seq<Seq<char>>, t: Seq<char>)
    ensures
        laid_end_to_end(a.push(t)) == laid_end_to_end(a) + t,
    decreases a.len(),
{
    let all = a.push(t);
    if a.len() == 0 {
        assert(all.skip(1) =~= seq![]);
        assert(laid_end_to_end(all.skip(1)) =~= seq![]);
        assert(laid_end_to_end(a) =~= seq![]);
        assert(laid_end_to_end(all) =~= laid_end_to_end(a) + t);
    } else {
        assert(all.skip(1) =~= a.skip(1).push(t));
        lemma_end_to_end(a.skip(1), t);
        assert(all[0] == a[0]);
        assert(laid_end_to_end(all) =~= laid_end_to_end(a) + t);
    }
}

/// Texts laid from the last and from the first on are the same.
proof fn lemma_concatenated(texts: Seq<Seq<char>>)
    ensures
        concatenated(texts) == laid_end_to_end(texts),
    decreases texts.len(),
{
    if texts.len() > 0 {
        let p = texts.drop_last();
        lemma_concatenated(p);
        lemma_end_to_end(p, texts.last());
        assert(p.push(texts.last()) =~= texts);
    }
}

/// A string of SQL is written as its pieces with nothing between them: texts as they stand, and
/// expressions as they are printed. It fails at the first expression that does.
pub proof fn law_s_strings(items: Vec<InterpolateItem>, h: DialectHandler)
    ensures
        ({
            let pieces = Seq::new(items@.len(), |i: int| translated_item(items@[i], h));
            let texts = Seq::new(
                items@.len(),
                |i: int|
                    match items@[i] {
                        InterpolateItem::String(s) => s@,
                        InterpolateItem::Expr(e) => expr_text(expr_sql(e.kind, h)->Done_0),
                    },
            );
            match expr_sql(ExprKind::SString(items), h) {
                Outcome::Done(e) => {
                    &&& all_done(pieces)
                    &&& e == ExprView::Identifier(
                        IdentView { value: laid_end_to_end(texts), quote_style: None },
                    )
                },
                Outcome::Fail(e) => speaks_for(Outcome::Fail(e), pieces),
                Outcome::Undefined => speaks_for(Outcome::Undefined, pieces),
            }
        }),
{
    let pieces = Seq::new(items@.len(), |i: int| translated_item(items@[i], h));
    let texts = Seq::new(
        items@.len(),
        |i: int|
            match items@[i] {
                InterpolateItem::String(s) => s@,
                InterpolateItem::Expr(e) => expr_text(expr_sql(e.kind, h)->Done_0),
            },
    );
    let all = s_string_texts(items@, h);
    law_first_failure_decides(all);
    let o = collect(all);
    if let Outcome::Done(v) = o {
        assert forall|i: int| 0 <= i < pieces.len() implies (#[trigger] pieces[i]) is Done by {
            assert(all[i] == Outcome::Done(v[i]));
        }
        assert forall|i: int| 0 <= i < v.len() implies v[i] == #[trigger] texts[i] by {
            assert(all[i] == Outcome::Done(v[i]));
        }
        assert(v =~= texts);
        lemma_concatenated(texts);
    } else {
        let i = if o is Fail {
            choose|i: int|
                0 <= i < all.len() && (#[trigger] all[i]) == Outcome::<Seq<char>>::Fail(o->Fail_0)
                    && all_done(all.take(i))
        } else {
            choose|i: int|
                0 <= i < all.len() && (#[trigger] all[i]) is Undefined && all_done(all.take(i))
        };
        assert forall|j: int| 0 <= j < pieces.take(i).len() implies (#[trigger] pieces.take(
            i,
        )[j]) is Done by {
            assert(all.take(i)[j] is Done);
        }
        assert(pieces[i] == translated_item(items@[i], h));
    }
}

/// A string that is put together when the query runs is a call of `CONCAT` with its pieces as
/// arguments, in order: texts as string literals, and expressions as they are translated. It
/// fails at the first expression that does.
pub proof fn law_f_strings(items: Vec<InterpolateItem>, h: DialectHandler)
    ensures
        ({
            let pieces = Seq::new(items@.len(), |i: int| translated_item(items@[i], h));
            match expr_sql(ExprKind::FString(items), h) {
                Outcome::Done(e) => {
                    &&& e matches ExprView::Function(f)
                    &&& speaks_for(Outcome::Done(f.args), pieces)
                    &&& f.name == seq![IdentView { value: "CONCAT"@, quote_style: None }]
                    &&& !f.distinct && !f.special
                },
                Outcome::Fail(e) => speaks_for(Outcome::Fail(e), pieces),
                Outcome::Undefined => speaks_for(Outcome::Undefined, pieces),
            }
        }),
{
    let pieces = Seq::new(items@.len(), |i: int| translated_item(items@[i], h));
    let all = f_string_args(items@, h);
    assert(all =~= pieces);
    law_first_failure_decides(all);
}

/// What has no counterpart in SQL is refused and shown.
pub proof fn law_unsupported(kind: ExprKind, h: DialectHandler)
    requires
        kind is Empty || kind is List || kind is FuncCall,
    ensures
        expr_sql(kind, h) == Outcome::<ExprView>::Fail(ErrorView::UnsupportedExpr(shown(kind))),
{
}

/// A call goes by its name as it stands, with its arguments in order, and fails at the first
/// argument that does.
pub proof fn law_calls(name: Seq<char>, args: Seq<Expr>, h: DialectHandler)
    ensures
        ({
            let parts = Seq::new(args.len(), |i: int| expr_sql(args[i].kind, h));
            match func_call(name, args, h) {
                Outcome::Done(f) => {
                    &&& speaks_for(Outcome::Done(f.args), parts)
                    &&& f.name == seq![IdentView { value: name, quote_style: None }]
                    &&& !f.distinct && !f.special
                },
                Outcome::Fail(e) => speaks_for(Outcome::Fail(e), parts),
                Outcome::Undefined => speaks_for(Outcome::Undefined, parts),
            }
        }),
{
    let parts = Seq::new(args.len(), |i: int| expr_sql(args[i].kind, h));
    assert(exprs_sql(args, h) =~= parts);
    law_first_failure_decides(parts);
}

// ---------------------------------------------------------------------------
// Orders and columns
// ---------------------------------------------------------------------------

/// An entry of an order: the translation of its column, marked as descending exactly if it is.
pub open spec fn is_order(entry: OrderByView, column: ColumnSort, h: DialectHandler) -> bool {
    &&& expr_sql(column.column.kind, h) == Outcome::Done(entry.expr)
    &&& entry.asc == Some(false) <==> column.direction is Desc
    &&& entry.asc is None <==> column.direction is Asc
    &&& entry.nulls_first is None
}

/// A column to sort by is translated, and fails if its expression does.
pub proof fn law_sort_columns(column: ColumnSort, h: DialectHandler)
    ensures
        match order_by(expr_sql(column.column.kind, h), column.direction) {
            Outcome::Done(entry) => is_order(entry, column, h),
            Outcome::Fail(e) => expr_sql(column.column.kind, h) == Outcome::<ExprView>::Fail(e),
            Outcome::Undefined => expr_sql(column.column.kind, h) is Undefined,
        },
{
}

/// An order has one entry for each of its columns, in order, and fails at the first column that
/// does.
pub proof fn law_orders(columns: Seq<ColumnSort>, h: DialectHandler)
    ensures
        ({
            let parts = Seq::new(columns.len(), |i: int| expr_sql(columns[i].column.kind, h));
            match collect(sorts_sql(columns, h)) {
                Outcome::Done(v) => v.len() == columns.len() && forall|i: int|
                    0 <= i < columns.len() ==> is_order(#[trigger] v[i], columns[i], h),
                Outcome::Fail(e) => speaks_for(Outcome::Fail(e), parts),
                Outcome::Undefined => speaks_for(Outcome::Undefined, parts),
            }
        }),
{
    let parts = Seq::new(columns.len(), |i: int| expr_sql(columns[i].column.kind, h));
    let all = sorts_sql(columns, h);
    law_first_failure_decides(all);
    let o = collect(all);
    if let Outcome::Done(v) = o {
        assert forall|i: int| 0 <= i < columns.len() implies is_order(
            #[trigger] v[i],
            columns[i],
            h,
        ) by {
            assert(all[i] == Outcome::Done(v[i]));
        }
    } else {
        let i = if o is Fail {
            choose|i: int|
                0 <= i < all.len() && (#[trigger] all[i]) == Outcome::<OrderByView>::Fail(
                    o->Fail_0,
                ) && all_done(all.take(i))
        } else {
            choose|i: int|
                0 <= i < all.len() && (#[trigger] all[i]) is Undefined && all_done(all.take(i))
        };
        assert forall|j: int| 0 <= j < parts.take(i).len() implies (#[trigger] parts.take(
            i,
        )[j]) is Done by {
            assert(all.take(i)[j] is Done);
        }
        assert(parts[i] == expr_sql(columns[i].column.kind, h));
    }
}

/// A column of a `SELECT` with the name it is given.
pub open spec fn is_column(item: SelectItemView, column: Expr, h: DialectHandler) -> bool {
    match item {
        SelectItemView::UnnamedExpr(e) => column.alias is None && expr_sql(column.kind, h)
            == Outcome::Done(e),
        SelectItemView::ExprWithAlias { expr, alias } => {
            &&& column.alias matches Some(name)
            &&& is_quoted_as_needed(alias, name@, h)
            &&& expr_sql(column.kind, h) == Outcome::Done(expr)
        },
    }
}

/// A column is translated with the name it is given, and fails if its expression does.
pub proof fn law_select_columns(column: Expr, h: DialectHandler)
    ensures
        match select_item(column, h) {
            Outcome::Done(item) => is_column(item, column, h),
            Outcome::Fail(e) => expr_sql(column.kind, h) == Outcome::<ExprView>::Fail(e),
            Outcome::Undefined => expr_sql(column.kind, h) is Undefined,
        },
{
    if let Some(name) = column.alias {
        law_parts_are_quoted_as_needed(name@, h);
    }
}

// ---------------------------------------------------------------------------
// Windows
// ---------------------------------------------------------------------------

/// A bound of a frame counts rows from the current one: negative numbers before it, positive
/// ones after it.
pub open spec fn counted_rows(bound: WindowFrameBound) -> Option<int> {
    match bound {
        WindowFrameBound::CurrentRow => Some(0),
        WindowFrameBound::Preceding(n) => match n {
            Some(n) => Some(-n),
            None => None,
        },
        WindowFrameBound::Following(n) => match n {
            Some(n) => Some(n as int),
            None => None,
        },
    }
}

/// An open bound reaches to the first row at the start, and to the last row at the end.
pub open spec fn opens_outwards(frame: WindowFrame) -> bool {
    &&& frame.start_bound != WindowFrameBound::Following(None)
    &&& frame.end_bound != Some(WindowFrameBound::Preceding(None))
    &&& frame.end_bound is Some
}

/// What the rows of a frame are counted by.
pub open spec fn frame_kind(frame: WindowFrame) -> WindowKind {
    match frame.units {
        WindowFrameUnits::Rows => WindowKind::Rows,
        WindowFrameUnits::Range => WindowKind::Range,
    }
}

/// What SQL makes of a window: its kind, and where it starts and ends. Without a frame it is all
/// rows, or, if the window is sorted, the range up to the current row.
pub open spec fn sql_window(frame: Option<WindowFrame>, sorted: bool) -> (
    WindowKind,
    Option<int>,
    Option<int>,
) {
    match frame {
        Some(f) => (frame_kind(f), counted_rows(f.start_bound), counted_rows(f.end_bound->0)),
        None => if sorted {
            (WindowKind::Range, None, Some(0))
        } else {
            (WindowKind::Rows, None, None)
        },
    }
}

/// The number that a bound of a window is written as.
pub open spec fn bound_number(bound: Option<Box<Expr>>) -> Option<int> {
    match bound {
        Some(b) => match b.kind {
            ExprKind::Literal(Literal::Integer(n)) => Some(n as int),
            _ => Some(0),
        },
        None => None,
    }
}

/// A bound is an integer literal that can be negated, or is missing.
pub open spec fn bound_counts(bound: Option<Box<Expr>>) -> bool {
    bound matches Some(b) ==> (b.kind matches ExprKind::Literal(Literal::Integer(n)) && n
        != i64::MIN)
}

/// Reading a frame gives back the kind and both bounds of the window. A frame is refused only for
/// a bound that is no integer literal.
pub proof fn law_frames_are_read_back(kind: WindowKind, range: Range)
    ensures
        window_frame(kind, range) matches Outcome::Done(f) ==> {
            &&& opens_outwards(f)
            &&& sql_window(Some(f), true) == (kind, bound_number(range.start), bound_number(
                range.end,
            ))
            &&& bound_counts(range.start) && bound_counts(range.end)
        },
        bound_counts(range.start) && bound_counts(range.end) ==> window_frame(kind, range) is Done,
        window_frame(kind, range) matches Outcome::Fail(e) ==> {
            let start = bound_complaint(range.start);
            e == if start is Some {
                start->0
            } else {
                bound_complaint(range.end)->0
            }
        },
        bound_complaint(range.start) is Some ==> window_frame(kind, range) is Fail,
{
}

/// An expression over a window is written as the expression, `OVER`, and the window in
/// parentheses. The window is partitioned by the group and sorted by the order, and what SQL
/// makes of its frame is the kind and both bounds that were asked for. The frame is left out only
/// where SQL assumes it.
pub proof fn law_windows(w: Windowed, h: DialectHandler)
    ensures
        expr_sql(ExprKind::Windowed(w), h) matches Outcome::Done(e) ==> exists|
            window: WindowSpecView,
        |
            {
                &&& #[trigger] is_window(window, w, h)
                &&& expr_sql(w.expr.kind, h) is Done
                &&& e == ExprView::Identifier(
                    IdentView {
                        value: expr_text(expr_sql(w.expr.kind, h)->Done_0) + " OVER ("@
                            + window_text(window) + ")"@,
                        quote_style: None,
                    },
                )
            },
{
    if expr_sql(ExprKind::Windowed(w), h) is Done {
        let groups = collect(exprs_sql(w.group@, h));
        let orders = collect(sorts_sql(w.sort@, h));
        let frame = written_frame(w.sort@.len() > 0, w.window.0, w.window.1);
        let window = WindowSpecView {
            partition_by: groups->Done_0,
            order_by: orders->Done_0,
            window_frame: frame->Done_0,
        };
        let parts = Seq::new(w.group@.len(), |i: int| expr_sql(w.group@[i].kind, h));
        assert(exprs_sql(w.group@, h) =~= parts);
        law_first_failure_decides(parts);
        law_orders(w.sort@, h);
        law_frames_are_read_back(w.window.0, w.window.1);
        assert(is_window(window, w, h));
    }
}

/// A window does what was asked for.
pub open spec fn is_window(window: WindowSpecView, w: Windowed, h: DialectHandler) -> bool {
    let sorted = w.sort@.len() > 0;
    let asked = (w.window.0, bound_number(w.window.1.start), bound_number(w.window.1.end));
    &&& speaks_for(
        Outcome::Done(window.partition_by),
        Seq::new(w.group@.len(), |i: int| expr_sql(w.group@[i].kind, h)),
    )
    &&& window.order_by.len() == w.sort@.len()
    &&& forall|i: int|
        0 <= i < w.sort@.len() ==> is_order(#[trigger] window.order_by[i], w.sort@[i], h)
    &&& window.window_frame matches Some(f) ==> opens_outwards(f)
    &&& sql_window(window.window_frame, sorted) == asked
    &&& window.window_frame is Some && asked == sql_window(None, sorted) ==> sorted
        && w.window.1.end->0.alias is Some
}

/// An expression over a window is translated if the expression, the groups, the order and the
/// bounds of the frame are. Otherwise it is refused for the first of these that is not.
pub proof fn law_window_failures(w: Windowed, h: DialectHandler)
    ensures
        ({
            let written = expr_sql(ExprKind::Windowed(w), h);
            let groups = Seq::new(w.group@.len(), |i: int| expr_sql(w.group@[i].kind, h));
            let orders = Seq::new(w.sort@.len(), |i: int| expr_sql(w.sort@[i].column.kind, h));
            let (start, end) = (w.window.1.start, w.window.1.end);
            if expr_sql(w.expr.kind, h) !is Done {
                written == expr_sql(w.expr.kind, h)
            } else if !all_done(groups) {
                match written {
                    Outcome::Done(_) => false,
                    Outcome::Fail(e) => speaks_for(Outcome::Fail(e), groups),
                    Outcome::Undefined => speaks_for(Outcome::Undefined, groups),
                }
            } else if !all_done(orders) {
                match written {
                    Outcome::Done(_) => false,
                    Outcome::Fail(e) => speaks_for(Outcome::Fail(e), orders),
                    Outcome::Undefined => speaks_for(Outcome::Undefined, orders),
                }
            } else if bound_complaint(start) is Some {
                written == Outcome::<ExprView>::Fail(bound_complaint(start)->0)
            } else if bound_counts(start) && bound_complaint(end) is Some {
                written == Outcome::<ExprView>::Fail(bound_complaint(end)->0)
            } else {
                bound_counts(start) && bound_counts(end) ==> written is Done
            }
        }),
{
    let groups = Seq::new(w.group@.len(), |i: int| expr_sql(w.group@[i].kind, h));
    let orders = Seq::new(w.sort@.len(), |i: int| expr_sql(w.sort@[i].column.kind, h));
    assert(exprs_sql(w.group@, h) =~= groups);
    law_first_failure_decides(groups);
    lemma_collect_done(groups);
    law_orders(w.sort@, h);
    let sorts = sorts_sql(w.sort@, h);
    lemma_collect_done(sorts);
    assert(all_done(orders) <==> collect(sorts) is Done) by {
        if all_done(orders) {
            assert forall|i: int| 0 <= i < sorts.len() implies (#[trigger] sorts[i]) is Done by {
                assert(orders[i] is Done);
            }
        }
        if collect(sorts) is Done {
            assert forall|i: int| 0 <= i < orders.len() implies (
            #[trigger] orders[i]) is Done by {
                assert(sorts[i] is Done);
            }
        }
    }
    law_frames_are_read_back(w.window.0, w.window.1);
}

// ---------------------------------------------------------------------------
// Conjunctions
// ---------------------------------------------------------------------------

/// An expression is the conjunction of others: they are its `AND` operands from left to right,
/// each in parentheses exactly if it holds together less strongly than `AND` binds.
pub open spec fn is_conjunction(e: ExprView, parts: Seq<ExprView>) -> bool
    decreases parts.len(),
{
    if parts.len() == 0 {
        false
    } else if parts.len() == 1 {
        e == parts[0]
    } else {
        let before = parts.drop_last();
        &&& e matches ExprView::BinaryOp { left, op, right }
        &&& op == BinaryOperator::And
        &&& is_operand(*right, parts.last(), op.strength())
        &&& {
            ||| left.strength() >= op.strength() && is_conjunction(*left, before)
            ||| (*left matches ExprView::Nested(inner) && inner.strength() < op.strength()
                && is_conjunction(*inner, before))
        }
    }
}

/// The values of outcomes.
pub open spec fn values_of<T>(s: Seq<Outcome<T>>) -> Seq<T> {
    Seq::new(s.len(), |i: int| s[i]->Done_0)
}

/// The conjunction of the first conditions.
proof fn lemma_conjunction(conditions: Seq<ExprKind>, n: int, h: DialectHandler)
    requires
        0 < n <= conditions.len(),
    ensures
        ({
            let parts = Seq::new(conditions.len(), |i: int| expr_sql(conditions[i], h));
            let o = expr_sql(all_of(conditions.take(n)), h);
            match o {
                Outcome::Done(e) => all_done(parts.take(n)) && is_conjunction(
                    e,
                    values_of(parts.take(n)),
                ),
                Outcome::Fail(e) => speaks_for(Outcome::Fail(e), parts.take(n)),
                Outcome::Undefined => speaks_for(Outcome::Undefined, parts.take(n)),
            }
        }),
    decreases n,
{
    let parts = Seq::new(conditions.len(), |i: int| expr_sql(conditions[i], h));
    let now = parts.take(n);
    let o = expr_sql(all_of(conditions.take(n)), h);
    if n == 1 {
        assert(conditions.take(1)[0] == conditions[0]);
        assert(now[0] == o);
        assert(now.take(0) =~= seq![]);
        if o is Done {
            assert(all_done(now));
            assert(values_of(now)[0] == o->Done_0);
        }
    } else {
        let m = n - 1;
        let before = parts.take(m);
        let prior = expr_sql(all_of(conditions.take(m)), h);
        let last = expr_sql(conditions[m], h);
        lemma_conjunction(conditions, m, h);
        lemma_all_of_step(conditions, m, h);
        assert(now.take(m) =~= before);
        assert(now[m] == last);
        if prior is Done {
            if let Outcome::Done(l) = last {
                assert forall|i: int| 0 <= i < now.len() implies (#[trigger] now[i]) is Done by {
                    if i < m {
                        assert(before[i] is Done);
                    }
                }
                assert(values_of(now).drop_last() =~= values_of(before));
                assert(values_of(now).last() == l);
            } else {
                assert(all_done(now.take(m)));
            }
        } else {
            let i = if prior is Fail {
                choose|i: int|
                    0 <= i < before.len() && (#[trigger] before[i]) == Outcome::<ExprView>::Fail(
                        prior->Fail_0,
                    ) && all_done(before.take(i))
            } else {
                choose|i: int|
                    0 <= i < before.len() && (#[trigger] before[i]) is Undefined && all_done(
                        before.take(i),
                    )
            };
            assert(now[i] == before[i]);
            assert(now.take(i) =~= before.take(i));
        }
    }
}

/// The conjunction of conditions has their translations as its operands, all of them and in
/// order. Without conditions there is none. It fails at the first condition that does.
pub proof fn law_conjunctions(conditions: Seq<ExprKind>, h: DialectHandler)
    ensures
        ({
            let parts = Seq::new(conditions.len(), |i: int| expr_sql(conditions[i], h));
            match filter_sql(conditions, h) {
                Outcome::Done(Some(e)) => all_done(parts) && is_conjunction(e, values_of(parts)),
                Outcome::Done(None) => conditions.len() == 0,
                Outcome::Fail(e) => speaks_for(Outcome::Fail(e), parts),
                Outcome::Undefined => speaks_for(Outcome::Undefined, parts),
            }
        }),
{
    let n = conditions.len() as int;
    if n > 0 {
        let parts = Seq::new(conditions.len(), |i: int| expr_sql(conditions[i], h));
        lemma_conjunction(conditions, n, h);
        assert(conditions.take(n) =~= conditions);
        assert(parts.take(n) =~= parts);
    }
}


} // verus!
