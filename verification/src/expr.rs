//! Expressions.

use crate::ast::{
    bare, BinOp, ColumnSort, DialectHandler, Expr, ExprKind, FuncCall, InterpolateItem, Literal,
    Range, SortDirection, UnOp, WindowKind, Windowed,
};
use crate::error::{
    agrees, agrees_list, agrees_option, carried, collect, lemma_collect_done, lemma_collect_step,
    lemma_collect_stops, lemma_collect_undefined, Error, ErrorView, Outcome,
};
use crate::ident::{column_parts, ident_part, plain, translate_column, translate_ident_part};
use crate::print::{expr_text, expr_to_text, window_text, window_to_text};
use crate::sql::{
    group_views, views, well_nested, BinaryOperator, DataType, DateTimeField, ExprView, Function,
    FunctionView, Ident, OrderByExpr, OrderByView, SelectItem, SelectItemView, SqlExpr, SqlValue,
    Top, TopView, UnaryOperator, ValueView, WindowFrame, WindowFrameBound, WindowFrameUnits,
    WindowSpec, WindowSpecView,
};
use crate::text::{int_text, int_to_text, same_text};
use vstd::prelude::*;

verus! {

broadcast use {group_views, crate::sql::lemma_function_view};

// ---------------------------------------------------------------------------
// What an expression is translated to
// ---------------------------------------------------------------------------

/// An expression in parentheses if it holds together less strongly than it has to.
pub open spec fn parenthesized(e: ExprView, min_strength: int) -> ExprView {
    if e.strength() < min_strength {
        ExprView::Nested(Box::new(e))
    } else {
        e
    }
}

/// The operand that an expression is translated to.
pub open spec fn operand(o: Outcome<ExprView>, min_strength: int) -> Outcome<ExprView> {
    match o {
        Outcome::Done(e) => Outcome::Done(parenthesized(e, min_strength)),
        _ => o,
    }
}

/// The strength of a comparison with null.
pub open spec fn null_test_strength() -> int {
    ExprView::IsNull(Box::new(ExprView::Value(ValueView::Null))).strength() as int
}

/// A comparison with null, with the operand that is compared.
pub open spec fn null_test(op: BinOp, o: Outcome<ExprView>) -> Outcome<ExprView> {
    match operand(o, null_test_strength()) {
        Outcome::Done(e) => Outcome::Done(
            if op == BinOp::Eq {
                ExprView::IsNull(Box::new(e))
            } else {
                ExprView::IsNotNull(Box::new(e))
            },
        ),
        other => other,
    }
}

/// The SQL operator of a binary operator; coalescing has none.
pub open spec fn sql_binary_operator(op: BinOp) -> Option<BinaryOperator> {
    match op {
        BinOp::Mul => Some(BinaryOperator::Multiply),
        BinOp::Div => Some(BinaryOperator::Divide),
        BinOp::Mod => Some(BinaryOperator::Modulo),
        BinOp::Add => Some(BinaryOperator::Plus),
        BinOp::Sub => Some(BinaryOperator::Minus),
        BinOp::Eq => Some(BinaryOperator::Eq),
        BinOp::Ne => Some(BinaryOperator::NotEq),
        BinOp::Gt => Some(BinaryOperator::Gt),
        BinOp::Lt => Some(BinaryOperator::Lt),
        BinOp::Gte => Some(BinaryOperator::GtEq),
        BinOp::Lte => Some(BinaryOperator::LtEq),
        BinOp::And => Some(BinaryOperator::And),
        BinOp::Or => Some(BinaryOperator::Or),
        BinOp::Coalesce => None,
    }
}

/// The SQL operator of a unary operator.
pub open spec fn sql_unary_operator(op: UnOp) -> UnaryOperator {
    match op {
        UnOp::Neg => UnaryOperator::Minus,
        UnOp::Not => UnaryOperator::Not,
    }
}

/// An operation on two operands.
pub open spec fn binary_operation(
    op: BinOp,
    left: Outcome<ExprView>,
    right: Outcome<ExprView>,
) -> Outcome<ExprView> {
    match sql_binary_operator(op) {
        None => Outcome::Undefined,
        Some(sql_op) => match operand(left, sql_op.strength() as int) {
            Outcome::Done(l) => match operand(right, sql_op.strength() as int) {
                Outcome::Done(r) => Outcome::Done(
                    ExprView::BinaryOp { left: Box::new(l), op: sql_op, right: Box::new(r) },
                ),
                other => other,
            },
            other => other,
        },
    }
}

/// Two operands of a binary operator are compared with null.
pub open spec fn compares_null(op: BinOp, left: ExprKind, right: ExprKind) -> bool {
    (op == BinOp::Eq || op == BinOp::Ne) && (left.null() || right.null())
}

/// A text that is printed as it stands.
pub open spec fn verbatim(text: Seq<char>) -> ExprView {
    ExprView::Identifier(plain(text))
}

/// A number.
pub open spec fn number(n: int) -> ExprView {
    ExprView::Value(ValueView::Number(int_text(n), false))
}

/// What a literal is translated to.
pub open spec fn literal_sql(l: Literal) -> ExprView {
    match l {
        Literal::Null => ExprView::Value(ValueView::Null),
        Literal::String(s) => ExprView::Value(ValueView::SingleQuotedString(s@)),
        Literal::Boolean(b) => ExprView::Value(ValueView::Boolean(b)),
        Literal::Float(text) => ExprView::Value(ValueView::Number(text@, false)),
        Literal::Integer(n) => number(n as int),
        Literal::Date(value) => ExprView::TypedString { data_type: DataType::Date, value: value@ },
        Literal::Time(value) => ExprView::TypedString { data_type: DataType::Time, value: value@ },
        Literal::Timestamp(value) => ExprView::TypedString {
            data_type: DataType::Timestamp,
            value: value@,
        },
    }
}

/// The field of a unit of time, if it has one.
pub open spec fn unit_field(unit: Seq<char>) -> Option<DateTimeField> {
    if unit == "years"@ {
        Some(DateTimeField::Year)
    } else if unit == "months"@ {
        Some(DateTimeField::Month)
    } else if unit == "days"@ {
        Some(DateTimeField::Day)
    } else if unit == "hours"@ {
        Some(DateTimeField::Hour)
    } else if unit == "minutes"@ {
        Some(DateTimeField::Minute)
    } else if unit == "seconds"@ {
        Some(DateTimeField::Second)
    } else {
        None
    }
}

/// The integer that a bound is written as.
pub open spec fn bound_int(bound: Expr) -> Outcome<i64> {
    match bound.kind {
        ExprKind::Literal(Literal::Integer(n)) => Outcome::Done(n),
        ExprKind::Literal(_) => Outcome::Fail(ErrorView::NotAnInteger),
        _ => Outcome::Fail(ErrorView::NotALiteral),
    }
}

/// The bound of a window frame: a number of rows before or after the current one.
pub open spec fn frame_bound(bound: Expr) -> Outcome<WindowFrameBound> {
    match bound_int(bound) {
        Outcome::Done(n) => if n == 0 {
            Outcome::Done(WindowFrameBound::CurrentRow)
        } else if n > 0 {
            Outcome::Done(WindowFrameBound::Following(Some(n as u64)))
        } else if n == i64::MIN {
            Outcome::Undefined
        } else {
            Outcome::Done(WindowFrameBound::Preceding(Some((-n) as u64)))
        },
        other => carried(other),
    }
}

/// The frame of a window.
pub open spec fn window_frame(kind: WindowKind, range: Range) -> Outcome<WindowFrame> {
    let start = match range.start {
        Some(bound) => frame_bound(*bound),
        None => Outcome::Done(WindowFrameBound::Preceding(None)),
    };
    let end = match range.end {
        Some(bound) => frame_bound(*bound),
        None => Outcome::Done(WindowFrameBound::Following(None)),
    };
    match start {
        Outcome::Done(start_bound) => match end {
            Outcome::Done(end_bound) => Outcome::Done(
                WindowFrame {
                    units: match kind {
                        WindowKind::Rows => WindowFrameUnits::Rows,
                        WindowKind::Range => WindowFrameUnits::Range,
                    },
                    start_bound,
                    end_bound: Some(end_bound),
                },
            ),
            other => carried(other),
        },
        other => carried(other),
    }
}

/// The frame is the one that SQL assumes: all rows, or, if the window is sorted, the rows up
/// to the current one.
pub open spec fn is_default_frame(sorted: bool, kind: WindowKind, range: Range) -> bool {
    &&& range.start is None
    &&& if sorted {
        &&& kind == WindowKind::Range
        &&& range.end == Some(Box::new(bare(ExprKind::Literal(Literal::Integer(0)))))
    } else {
        &&& kind == WindowKind::Rows
        &&& range.end is None
    }
}

/// The frame that has to be written.
pub open spec fn written_frame(
    sorted: bool,
    kind: WindowKind,
    range: Range,
) -> Outcome<Option<WindowFrame>> {
    if is_default_frame(sorted, kind, range) {
        Outcome::Done(None)
    } else {
        match window_frame(kind, range) {
            Outcome::Done(frame) => Outcome::Done(Some(frame)),
            other => carried(other),
        }
    }
}

/// An expression over a window.
pub open spec fn windowed(
    expr: Outcome<ExprView>,
    partition_by: Outcome<Seq<ExprView>>,
    order_by: Outcome<Seq<OrderByView>>,
    frame: Outcome<Option<WindowFrame>>,
) -> Outcome<ExprView> {
    if expr !is Done {
        expr
    } else if partition_by !is Done {
        carried(partition_by)
    } else if order_by !is Done {
        carried(order_by)
    } else if frame !is Done {
        carried(frame)
    } else {
        let window = WindowSpecView {
            partition_by: partition_by->Done_0,
            order_by: order_by->Done_0,
            window_frame: frame->Done_0,
        };
        Outcome::Done(verbatim(over(expr_text(expr->Done_0), window_text(window))))
    }
}

/// The text of an expression over a window.
pub open spec fn over(expr: Seq<char>, window: Seq<char>) -> Seq<char> {
    expr + " OVER ("@ + window + ")"@
}

/// The text of a range.
pub open spec fn between(start: Seq<char>, end: Seq<char>) -> Seq<char> {
    start + " AND "@ + end
}

/// Texts, one after the other.
pub open spec fn concatenated(parts: Seq<Seq<char>>) -> Seq<char>
    decreases parts.len(),
{
    if parts.len() == 0 {
        seq![]
    } else {
        concatenated(parts.drop_last()) + parts.last()
    }
}

/// The function that puts texts together.
pub open spec fn concat_call(args: Seq<ExprView>) -> ExprView {
    ExprView::Function(
        FunctionView { name: seq![plain("CONCAT"@)], args, distinct: false, special: false },
    )
}

/// A column to sort by. Ascending order is not written.
pub open spec fn order_by(o: Outcome<ExprView>, direction: SortDirection) -> Outcome<OrderByView> {
    match o {
        Outcome::Done(expr) => Outcome::Done(
            OrderByView {
                expr,
                asc: if direction == SortDirection::Asc {
                    None
                } else {
                    Some(false)
                },
                nulls_first: None,
            },
        ),
        other => carried(other),
    }
}

/// The text of an outcome.
pub open spec fn text_of(o: Outcome<ExprView>) -> Outcome<Seq<char>> {
    match o {
        Outcome::Done(e) => Outcome::Done(expr_text(e)),
        other => carried(other),
    }
}

/// What an expression is translated to.
pub open spec fn expr_sql(kind: ExprKind, h: DialectHandler) -> Outcome<ExprView>
    decreases kind,
{
    match kind {
        ExprKind::Ident(name) => Outcome::Done(
            ExprView::CompoundIdentifier(column_parts(name@, h)),
        ),
        ExprKind::Binary { op, left, right } => if compares_null(op, left.kind, right.kind) {
            if left.kind.null() {
                null_test(op, expr_sql(right.kind, h))
            } else {
                null_test(op, expr_sql(left.kind, h))
            }
        } else {
            binary_operation(op, expr_sql(left.kind, h), expr_sql(right.kind, h))
        },
        ExprKind::Unary { op, expr } => {
            let sql_op = sql_unary_operator(op);
            match operand(expr_sql(expr.kind, h), sql_op.strength() as int) {
                Outcome::Done(e) => Outcome::Done(
                    ExprView::UnaryOp { op: sql_op, expr: Box::new(e) },
                ),
                other => other,
            }
        },
        ExprKind::Range(range) => match range.start {
            None => Outcome::Fail(ErrorView::RangeRequiresBothBounds),
            Some(start) => match expr_sql(start.kind, h) {
                Outcome::Done(start_sql) => match range.end {
                    None => Outcome::Fail(ErrorView::RangeRequiresBothBounds),
                    Some(end) => match expr_sql(end.kind, h) {
                        Outcome::Done(end_sql) => Outcome::Done(
                            verbatim(between(expr_text(start_sql), expr_text(end_sql))),
                        ),
                        other => other,
                    },
                },
                other => other,
            },
        },
        ExprKind::SString(items) => match collect(s_string_texts(items@, h)) {
            Outcome::Done(texts) => Outcome::Done(verbatim(concatenated(texts))),
            other => carried(other),
        },
        ExprKind::FString(items) => match collect(f_string_args(items@, h)) {
            Outcome::Done(args) => Outcome::Done(concat_call(args)),
            other => carried(other),
        },
        ExprKind::Interval(interval) => match unit_field(interval.unit@) {
            Some(leading_field) => Outcome::Done(
                ExprView::Value(
                    ValueView::Interval {
                        value: Box::new(number(interval.n as int)),
                        leading_field,
                    },
                ),
            ),
            None => Outcome::Fail(ErrorView::UnsupportedIntervalUnit(interval.unit@)),
        },
        ExprKind::Windowed(w) => windowed(
            expr_sql(w.expr.kind, h),
            collect(exprs_sql(w.group@, h)),
            collect(sorts_sql(w.sort@, h)),
            written_frame(w.sort@.len() > 0, w.window.0, w.window.1),
        ),
        ExprKind::Literal(l) => Outcome::Done(literal_sql(l)),
        _ => Outcome::Fail(ErrorView::UnsupportedExpr(shown(kind))),
    }
}

/// What the members of a list are translated to.
pub open spec fn exprs_sql(v: Seq<Expr>, h: DialectHandler) -> Seq<Outcome<ExprView>>
    decreases v,
{
    Seq::new(
        v.len(),
        |i: int|
            if 0 <= i < v.len() {
                expr_sql(v[i].kind, h)
            } else {
                Outcome::Undefined
            },
    )
}

/// What the columns of an order are translated to.
pub open spec fn sorts_sql(v: Seq<ColumnSort>, h: DialectHandler) -> Seq<Outcome<OrderByView>>
    decreases v,
{
    Seq::new(
        v.len(),
        |i: int|
            if 0 <= i < v.len() {
                order_by(expr_sql(v[i].column.kind, h), v[i].direction)
            } else {
                Outcome::Undefined
            },
    )
}

/// The texts of the pieces of a string that holds SQL.
pub open spec fn s_string_texts(v: Seq<InterpolateItem>, h: DialectHandler) -> Seq<
    Outcome<Seq<char>>,
>
    decreases v,
{
    Seq::new(
        v.len(),
        |i: int|
            if 0 <= i < v.len() {
                match v[i] {
                    InterpolateItem::String(s) => Outcome::Done(s@),
                    InterpolateItem::Expr(e) => text_of(expr_sql(e.kind, h)),
                }
            } else {
                Outcome::Undefined
            },
    )
}

/// The pieces of a string that is put together when the query runs.
pub open spec fn f_string_args(v: Seq<InterpolateItem>, h: DialectHandler) -> Seq<
    Outcome<ExprView>,
>
    decreases v,
{
    Seq::new(
        v.len(),
        |i: int|
            if 0 <= i < v.len() {
                match v[i] {
                    InterpolateItem::String(s) => Outcome::Done(
                        ExprView::Value(ValueView::SingleQuotedString(s@)),
                    ),
                    InterpolateItem::Expr(e) => expr_sql(e.kind, h),
                }
            } else {
                Outcome::Undefined
            },
    )
}

// ---------------------------------------------------------------------------
// Translation
// ---------------------------------------------------------------------------

/// An expression as `{:?}` shows it.
pub uninterp spec fn shown(kind: ExprKind) -> Seq<char>;

/// The macro `format!` with `{:?}`: what it shows is a function of the expression alone.
#[verifier::external_body]
fn show(kind: &ExprKind) -> (r: String)
    ensures
        r@ == shown(*kind),
{
    format!("{:?}", kind)
}

/// The expression for a range whose bounds are printed.
pub fn range_ident(start: &str, end: &str) -> (r: SqlExpr)
    ensures
        r@ == verbatim(between(start@, end@)),
{
    let mut text = String::new();
    text.append(start);
    text.append(" AND ");
    text.append(end);
    proof {
        assert(text@ =~= between(start@, end@));
    }
    SqlExpr::Identifier(Ident::new(text))
}

/// The expression for a string of SQL whose pieces are printed.
pub fn s_string_ident(parts: &Vec<String>) -> (r: SqlExpr)
    ensures
        r@ == verbatim(concatenated(views(parts@))),
{
    let mut text = String::new();
    let mut i: usize = 0;
    let ghost all = views(parts@);
    proof {
        assert(all.take(0) =~= seq![]);
    }
    while i < parts.len()
        invariant
            i <= parts@.len(),
            all == views(parts@),
            text@ == concatenated(all.take(i as int)),
        decreases parts.len() - i,
    {
        text.append(parts[i].as_str());
        proof {
            assert(all.take(i + 1).drop_last() =~= all.take(i as int));
            assert(all.take(i + 1).last() == parts@[i as int]@);
        }
        i += 1;
    }
    proof {
        assert(all.take(i as int) =~= all);
    }
    SqlExpr::Identifier(Ident::new(text))
}

/// The expression for a printed expression over a printed window.
pub fn window_ident(expr: &str, window: &str) -> (r: SqlExpr)
    ensures
        r@ == verbatim(over(expr@, window@)),
{
    let mut text = String::new();
    text.append(expr);
    text.append(" OVER (");
    text.append(window);
    text.append(")");
    proof {
        assert(text@ =~= over(expr@, window@));
    }
    SqlExpr::Identifier(Ident::new(text))
}

fn translate_literal(l: &Literal) -> (r: SqlExpr)
    ensures
        r@ == literal_sql(*l),
{
    match l {
        Literal::Null => SqlExpr::Value(SqlValue::Null),
        Literal::String(s) => SqlExpr::Value(SqlValue::SingleQuotedString(s.clone())),
        Literal::Boolean(b) => SqlExpr::Value(SqlValue::Boolean(*b)),
        Literal::Float(text) => SqlExpr::Value(SqlValue::Number(text.clone(), false)),
        Literal::Integer(n) => SqlExpr::Value(SqlValue::Number(int_to_text(*n), false)),
        Literal::Date(value) => SqlExpr::TypedString {
            data_type: DataType::Date,
            value: value.clone(),
        },
        Literal::Time(value) => SqlExpr::TypedString {
            data_type: DataType::Time,
            value: value.clone(),
        },
        Literal::Timestamp(value) => SqlExpr::TypedString {
            data_type: DataType::Timestamp,
            value: value.clone(),
        },
    }
}

fn translate_unit(unit: &str) -> (r: Option<DateTimeField>)
    ensures
        r == unit_field(unit@),
{
    if same_text(unit, "years") {
        Some(DateTimeField::Year)
    } else if same_text(unit, "months") {
        Some(DateTimeField::Month)
    } else if same_text(unit, "days") {
        Some(DateTimeField::Day)
    } else if same_text(unit, "hours") {
        Some(DateTimeField::Hour)
    } else if same_text(unit, "minutes") {
        Some(DateTimeField::Minute)
    } else if same_text(unit, "seconds") {
        Some(DateTimeField::Second)
    } else {
        None
    }
}

fn translate_binary_operator(op: BinOp) -> (r: Option<BinaryOperator>)
    ensures
        r == sql_binary_operator(op),
{
    match op {
        BinOp::Mul => Some(BinaryOperator::Multiply),
        BinOp::Div => Some(BinaryOperator::Divide),
        BinOp::Mod => Some(BinaryOperator::Modulo),
        BinOp::Add => Some(BinaryOperator::Plus),
        BinOp::Sub => Some(BinaryOperator::Minus),
        BinOp::Eq => Some(BinaryOperator::Eq),
        BinOp::Ne => Some(BinaryOperator::NotEq),
        BinOp::Gt => Some(BinaryOperator::Gt),
        BinOp::Lt => Some(BinaryOperator::Lt),
        BinOp::Gte => Some(BinaryOperator::GtEq),
        BinOp::Lte => Some(BinaryOperator::LtEq),
        BinOp::And => Some(BinaryOperator::And),
        BinOp::Or => Some(BinaryOperator::Or),
        BinOp::Coalesce => None,
    }
}

/// Translates an expression.
pub fn translate_expr_kind(item: &ExprKind, dialect: &DialectHandler) -> (r: Result<
    SqlExpr,
    Error,
>)
    requires
        expr_sql(*item, *dialect) !is Undefined,
    ensures
        agrees(r, expr_sql(*item, *dialect)),
    decreases item, 0nat,
{
    match item {
        ExprKind::Ident(name) => Ok(
            SqlExpr::CompoundIdentifier(translate_column(name.clone(), dialect)),
        ),
        ExprKind::Binary { op, left, right } => {
            match try_into_is_null(*op, left, right, dialect) {
                Ok(Some(is_null)) => Ok(is_null),
                Ok(None) => match translate_binary_operator(*op) {
                    Some(op) => {
                        let strength: i32 = op.binding_strength();
                        let left = match translate_operand(&left.kind, strength, dialect) {
                            Ok(e) => e,
                            Err(e) => {
                                return Err(e);
                            },
                        };
                        let right = match translate_operand(&right.kind, strength, dialect) {
                            Ok(e) => e,
                            Err(e) => {
                                return Err(e);
                            },
                        };
                        Ok(SqlExpr::BinaryOp { left, op, right })
                    },
                    None => vstd::pervasive::unreached(),
                },
                Err(e) => Err(e),
            }
        },
        ExprKind::Unary { op, expr } => {
            let op = match op {
                UnOp::Neg => UnaryOperator::Minus,
                UnOp::Not => UnaryOperator::Not,
            };
            match translate_operand(&expr.kind, op.binding_strength(), dialect) {
                Ok(expr) => Ok(SqlExpr::UnaryOp { op, expr }),
                Err(e) => Err(e),
            }
        },
        ExprKind::Range(range) => {
            let start = match &range.start {
                Some(bound) => match translate_expr_kind(&bound.kind, dialect) {
                    Ok(e) => e,
                    Err(e) => {
                        return Err(e);
                    },
                },
                None => {
                    return Err(Error::RangeRequiresBothBounds);
                },
            };
            let end = match &range.end {
                Some(bound) => match translate_expr_kind(&bound.kind, dialect) {
                    Ok(e) => e,
                    Err(e) => {
                        return Err(e);
                    },
                },
                None => {
                    return Err(Error::RangeRequiresBothBounds);
                },
            };
            let start = expr_to_text(&start);
            let end = expr_to_text(&end);
            Ok(range_ident(start.as_str(), end.as_str()))
        },
        ExprKind::SString(items) => match s_string_parts(items, dialect) {
            Ok(parts) => Ok(s_string_ident(&parts)),
            Err(e) => Err(e),
        },
        ExprKind::FString(items) => match f_string_parts(items, dialect) {
            Ok(args) => {
                let mut name: Vec<Ident> = Vec::new();
                name.push(Ident::new("CONCAT".to_string()));
                proof {
                    assert(views(name@) =~= seq![plain("CONCAT"@)]);
                }
                Ok(SqlExpr::Function(Function { name, args, distinct: false, special: false }))
            },
            Err(e) => Err(e),
        },
        ExprKind::Interval(interval) => match translate_unit(interval.unit.as_str()) {
            Some(leading_field) => {
                let value = Box::new(translate_literal(&Literal::Integer(interval.n)));
                Ok(SqlExpr::Value(SqlValue::Interval { value, leading_field }))
            },
            None => Err(Error::UnsupportedIntervalUnit(interval.unit.clone())),
        },
        ExprKind::Windowed(window) => translate_windowed(window, dialect),
        ExprKind::Literal(l) => Ok(translate_literal(l)),
        _ => Err(Error::UnsupportedExpr(show(item))),
    }
}

/// Translates an operand, in parentheses if it holds together less strongly than it has to.
pub fn translate_operand(
    expr: &ExprKind,
    min_strength: i32,
    dialect: &DialectHandler,
) -> (r: Result<Box<SqlExpr>, Error>)
    requires
        expr_sql(*expr, *dialect) !is Undefined,
    ensures
        agrees(r, operand(expr_sql(*expr, *dialect), min_strength as int)),
    decreases expr, 1nat,
{
    match translate_expr_kind(expr, dialect) {
        Ok(e) => if e.binding_strength() < min_strength {
            Ok(Box::new(SqlExpr::Nested(Box::new(e))))
        } else {
            Ok(Box::new(e))
        },
        Err(e) => Err(e),
    }
}

/// The side of a comparison that is not null.
pub open spec fn compared(a: Expr, b: Expr) -> ExprKind {
    if a.kind.null() {
        b.kind
    } else {
        a.kind
    }
}

/// Translates a comparison with null. Other operations are left alone.
pub fn try_into_is_null(op: BinOp, a: &Expr, b: &Expr, dialect: &DialectHandler) -> (r: Result<
    Option<SqlExpr>,
    Error,
>)
    requires
        compares_null(op, a.kind, b.kind) ==> expr_sql(compared(*a, *b), *dialect) !is Undefined,
    ensures
        compares_null(op, a.kind, b.kind) ==> match r {
            Ok(o) => o is Some && null_test(op, expr_sql(compared(*a, *b), *dialect))
                == Outcome::Done(o->0@),
            Err(e) => null_test(op, expr_sql(compared(*a, *b), *dialect)) == Outcome::<
                ExprView,
            >::Fail(e@),
        },
        !compares_null(op, a.kind, b.kind) ==> r == Ok::<Option<SqlExpr>, Error>(None),
    decreases compared(*a, *b), 2nat,
{
    if op == BinOp::Eq || op == BinOp::Ne {
        let expr = if a.kind.is_null() {
            &b.kind
        } else if b.kind.is_null() {
            &a.kind
        } else {
            return Ok(None);
        };
        let min_strength: i32 = SqlExpr::IsNull(
            Box::new(SqlExpr::Value(SqlValue::Null)),
        ).binding_strength();
        match translate_operand(expr, min_strength, dialect) {
            Ok(e) => Ok(
                Some(
                    if op == BinOp::Eq {
                        SqlExpr::IsNull(e)
                    } else {
                        SqlExpr::IsNotNull(e)
                    },
                ),
            ),
            Err(e) => Err(e),
        }
    } else {
        Ok(None)
    }
}

fn s_string_parts(items: &Vec<InterpolateItem>, dialect: &DialectHandler) -> (r: Result<
    Vec<String>,
    Error,
>)
    requires
        collect(s_string_texts(items@, *dialect)) !is Undefined,
    ensures
        agrees_list(r, collect(s_string_texts(items@, *dialect))),
    decreases items, 0nat,
{
    let mut parts: Vec<String> = Vec::new();
    let mut i: usize = 0;
    let ghost all = s_string_texts(items@, *dialect);
    proof {
        assert(all.take(0) =~= seq![]);
    }
    while i < items.len()
        invariant
            i <= items@.len(),
            all == s_string_texts(items@, *dialect),
            collect(all) !is Undefined,
            collect(all.take(i as int)) == Outcome::Done(views(parts@)),
        decreases items.len() - i,
    {
        proof {
            lemma_collect_step(all, i as int);
            lemma_collect_stops(all, i + 1);
        }
        match &items[i] {
            InterpolateItem::String(s) => {
                parts.push(s.clone());
            },
            InterpolateItem::Expr(node) => match translate_expr_kind(&node.kind, dialect) {
                Ok(e) => {
                    parts.push(expr_to_text(&e));
                },
                Err(e) => {
                    return Err(e);
                },
            },
        }
        i += 1;
    }
    proof {
        assert(all.take(i as int) =~= all);
    }
    Ok(parts)
}

fn f_string_parts(items: &Vec<InterpolateItem>, dialect: &DialectHandler) -> (r: Result<
    Vec<SqlExpr>,
    Error,
>)
    requires
        collect(f_string_args(items@, *dialect)) !is Undefined,
    ensures
        agrees_list(r, collect(f_string_args(items@, *dialect))),
    decreases items, 0nat,
{
    let mut args: Vec<SqlExpr> = Vec::new();
    let mut i: usize = 0;
    let ghost all = f_string_args(items@, *dialect);
    proof {
        assert(all.take(0) =~= seq![]);
    }
    while i < items.len()
        invariant
            i <= items@.len(),
            all == f_string_args(items@, *dialect),
            collect(all) !is Undefined,
            collect(all.take(i as int)) == Outcome::Done(views(args@)),
        decreases items.len() - i,
    {
        proof {
            lemma_collect_step(all, i as int);
            lemma_collect_stops(all, i + 1);
        }
        match &items[i] {
            InterpolateItem::String(s) => {
                args.push(SqlExpr::Value(SqlValue::SingleQuotedString(s.clone())));
            },
            InterpolateItem::Expr(node) => match translate_expr_kind(&node.kind, dialect) {
                Ok(e) => {
                    args.push(e);
                },
                Err(e) => {
                    return Err(e);
                },
            },
        }
        i += 1;
    }
    proof {
        assert(all.take(i as int) =~= all);
    }
    Ok(args)
}

/// Translates a list of expressions.
pub fn try_into_exprs(nodes: &Vec<Expr>, dialect: &DialectHandler) -> (r: Result<
    Vec<SqlExpr>,
    Error,
>)
    requires
        collect(exprs_sql(nodes@, *dialect)) !is Undefined,
    ensures
        agrees_list(r, collect(exprs_sql(nodes@, *dialect))),
    decreases nodes, 0nat,
{
    let mut exprs: Vec<SqlExpr> = Vec::new();
    let mut i: usize = 0;
    let ghost all = exprs_sql(nodes@, *dialect);
    proof {
        assert(all.take(0) =~= seq![]);
    }
    while i < nodes.len()
        invariant
            i <= nodes@.len(),
            all == exprs_sql(nodes@, *dialect),
            collect(all) !is Undefined,
            collect(all.take(i as int)) == Outcome::Done(views(exprs@)),
        decreases nodes.len() - i,
    {
        proof {
            lemma_collect_step(all, i as int);
            lemma_collect_stops(all, i + 1);
        }
        match translate_expr_kind(&nodes[i].kind, dialect) {
            Ok(e) => {
                exprs.push(e);
            },
            Err(e) => {
                return Err(e);
            },
        }
        i += 1;
    }
    proof {
        assert(all.take(i as int) =~= all);
    }
    Ok(exprs)
}

/// Translates a column to sort by.
pub fn translate_column_sort(sort: &ColumnSort, dialect: &DialectHandler) -> (r: Result<
    OrderByExpr,
    Error,
>)
    requires
        expr_sql(sort.column.kind, *dialect) !is Undefined,
    ensures
        agrees(r, order_by(expr_sql(sort.column.kind, *dialect), sort.direction)),
    decreases sort, 0nat,
{
    match translate_expr_kind(&sort.column.kind, dialect) {
        Ok(expr) => Ok(
            OrderByExpr {
                expr,
                asc: match sort.direction {
                    SortDirection::Asc => None,
                    SortDirection::Desc => Some(false),
                },
                nulls_first: None,
            },
        ),
        Err(e) => Err(e),
    }
}

/// Translates the columns of an order.
pub fn translate_column_sorts(sorts: &Vec<ColumnSort>, dialect: &DialectHandler) -> (r: Result<
    Vec<OrderByExpr>,
    Error,
>)
    requires
        collect(sorts_sql(sorts@, *dialect)) !is Undefined,
    ensures
        agrees_list(r, collect(sorts_sql(sorts@, *dialect))),
    decreases sorts, 0nat,
{
    let mut order: Vec<OrderByExpr> = Vec::new();
    let mut i: usize = 0;
    let ghost all = sorts_sql(sorts@, *dialect);
    proof {
        assert(all.take(0) =~= seq![]);
    }
    while i < sorts.len()
        invariant
            i <= sorts@.len(),
            all == sorts_sql(sorts@, *dialect),
            collect(all) !is Undefined,
            collect(all.take(i as int)) == Outcome::Done(views(order@)),
        decreases sorts.len() - i,
    {
        proof {
            lemma_collect_step(all, i as int);
            lemma_collect_stops(all, i + 1);
        }
        match translate_column_sort(&sorts[i], dialect) {
            Ok(o) => {
                order.push(o);
            },
            Err(e) => {
                return Err(e);
            },
        }
        i += 1;
    }
    proof {
        assert(all.take(i as int) =~= all);
    }
    Ok(order)
}

fn parse_bound(bound: &Expr) -> (r: Result<WindowFrameBound, Error>)
    requires
        frame_bound(*bound) !is Undefined,
    ensures
        agrees(r, frame_bound(*bound)),
{
    match &bound.kind {
        ExprKind::Literal(Literal::Integer(n)) => {
            let n: i64 = *n;
            Ok(
                if n == 0 {
                    WindowFrameBound::CurrentRow
                } else if n > 0 {
                    WindowFrameBound::Following(Some(n as u64))
                } else {
                    WindowFrameBound::Preceding(Some((-n) as u64))
                },
            )
        },
        ExprKind::Literal(_) => Err(Error::NotAnInteger),
        _ => Err(Error::NotALiteral),
    }
}

/// Translates the frame of a window.
pub fn try_into_window_frame(window: &(WindowKind, Range)) -> (r: Result<WindowFrame, Error>)
    requires
        window_frame(window.0, window.1) !is Undefined,
    ensures
        agrees(r, window_frame(window.0, window.1)),
{
    let range = &window.1;
    let units = match window.0 {
        WindowKind::Rows => WindowFrameUnits::Rows,
        WindowKind::Range => WindowFrameUnits::Range,
    };
    let start_bound = match &range.start {
        Some(bound) => match parse_bound(bound) {
            Ok(b) => b,
            Err(e) => {
                return Err(e);
            },
        },
        None => WindowFrameBound::Preceding(None),
    };
    let end_bound = match &range.end {
        Some(bound) => match parse_bound(bound) {
            Ok(b) => b,
            Err(e) => {
                return Err(e);
            },
        },
        None => WindowFrameBound::Following(None),
    };
    Ok(WindowFrame { units, start_bound, end_bound: Some(end_bound) })
}

fn exec_is_default_frame(sorted: bool, kind: WindowKind, range: &Range) -> (b: bool)
    ensures
        b == is_default_frame(sorted, kind, *range),
{
    if range.start.is_some() {
        return false;
    }
    match &range.end {
        None => !sorted && kind == WindowKind::Rows,
        Some(bound) => match &bound.kind {
            ExprKind::Literal(Literal::Integer(n)) => sorted && kind == WindowKind::Range && *n == 0
                && bound.alias.is_none(),
            _ => false,
        },
    }
}

fn translate_windowed(window: &Windowed, dialect: &DialectHandler) -> (r: Result<SqlExpr, Error>)
    requires
        expr_sql(ExprKind::Windowed(*window), *dialect) !is Undefined,
    ensures
        agrees(r, expr_sql(ExprKind::Windowed(*window), *dialect)),
    decreases window, 0nat,
{
    let expr = match translate_expr_kind(&window.expr.kind, dialect) {
        Ok(e) => e,
        Err(e) => {
            return Err(e);
        },
    };
    let partition_by = match try_into_exprs(&window.group, dialect) {
        Ok(v) => v,
        Err(e) => {
            return Err(e);
        },
    };
    let order_by = match translate_column_sorts(&window.sort, dialect) {
        Ok(v) => v,
        Err(e) => {
            return Err(e);
        },
    };
    let sorted = window.sort.len() > 0;
    let window_frame = if exec_is_default_frame(sorted, window.window.0, &window.window.1) {
        None
    } else {
        match try_into_window_frame(&window.window) {
            Ok(frame) => Some(frame),
            Err(e) => {
                return Err(e);
            },
        }
    };
    let window = WindowSpec { partition_by, order_by, window_frame };
    let expr = expr_to_text(&expr);
    let window = window_to_text(&window);
    Ok(window_ident(expr.as_str(), window.as_str()))
}

/// The kinds of expressions.
pub open spec fn kinds(exprs: Seq<Expr>) -> Seq<ExprKind> {
    Seq::new(exprs.len(), |i: int| exprs[i].kind)
}

/// Conditions, joined by `and` from the left.
pub open spec fn all_of(conditions: Seq<ExprKind>) -> ExprKind
    recommends
        conditions.len() > 0,
    decreases conditions.len(),
{
    if conditions.len() <= 1 {
        conditions[0]
    } else {
        ExprKind::Binary {
            left: Box::new(bare(all_of(conditions.drop_last()))),
            op: BinOp::And,
            right: Box::new(bare(conditions.last())),
        }
    }
}

/// What the conjunction of conditions is translated to. Without conditions there is none.
pub open spec fn filter_sql(conditions: Seq<ExprKind>, h: DialectHandler) -> Outcome<
    Option<ExprView>,
> {
    if conditions.len() == 0 {
        Outcome::Done(None)
    } else {
        match expr_sql(all_of(conditions), h) {
            Outcome::Done(e) => Outcome::Done(Some(e)),
            other => carried(other),
        }
    }
}

/// A conjunction with one more condition is translated as that conjunction and that condition.
pub proof fn lemma_all_of_step(conditions: Seq<ExprKind>, n: int, h: DialectHandler)
    requires
        0 < n < conditions.len(),
    ensures
        expr_sql(all_of(conditions.take(n + 1)), h) == binary_operation(
            BinOp::And,
            expr_sql(all_of(conditions.take(n)), h),
            expr_sql(conditions[n], h),
        ),
{
    let longer = conditions.take(n + 1);
    assert(longer.drop_last() =~= conditions.take(n));
    assert(longer.last() == conditions[n]);
    let left = Box::new(bare(all_of(conditions.take(n))));
    let right = Box::new(bare(conditions[n]));
    assert(all_of(longer) == ExprKind::Binary { left, op: BinOp::And, right });
    assert(!compares_null(BinOp::And, left.kind, right.kind));
}

/// Once the first conditions are not translated, none of the longer conjunctions is.
proof fn lemma_all_of_stops(conditions: Seq<ExprKind>, n: int, h: DialectHandler)
    requires
        0 < n <= conditions.len(),
    ensures
        expr_sql(all_of(conditions.take(n)), h) is Fail ==> expr_sql(all_of(conditions), h)
            == expr_sql(all_of(conditions.take(n)), h),
        expr_sql(all_of(conditions.take(n)), h) is Undefined ==> expr_sql(
            all_of(conditions),
            h,
        ) is Undefined,
    decreases conditions.len() - n,
{
    if n == conditions.len() {
        assert(conditions.take(n) =~= conditions);
    } else {
        lemma_all_of_step(conditions, n, h);
        lemma_all_of_stops(conditions, n + 1, h);
    }
}

/// Translates the conjunction of conditions.
pub fn filter_of_filters(conditions: Vec<&Expr>, dialect: &DialectHandler) -> (r: Result<
    Option<SqlExpr>,
    Error,
>)
    requires
        filter_sql(kinds(conditions@.unref()), *dialect) !is Undefined,
    ensures
        agrees_option(r, filter_sql(kinds(conditions@.unref()), *dialect)),
{
    if conditions.len() == 0 {
        return Ok(None);
    }
    let ghost all = kinds(conditions@.unref());
    proof {
        assert(all.take(1)[0] == all[0]);
        lemma_all_of_stops(all, 1, *dialect);
    }
    let mut condition = match translate_expr_kind(&conditions[0].kind, dialect) {
        Ok(e) => e,
        Err(e) => {
            return Err(e);
        },
    };
    let mut i: usize = 1;
    while i < conditions.len()
        invariant
            1 <= i <= conditions@.len(),
            all == kinds(conditions@.unref()),
            expr_sql(all_of(all), *dialect) !is Undefined,
            expr_sql(all_of(all.take(i as int)), *dialect) == Outcome::Done(condition@),
        decreases conditions.len() - i,
    {
        proof {
            lemma_all_of_step(all, i as int, *dialect);
            lemma_all_of_stops(all, i + 1, *dialect);
        }
        let op = BinaryOperator::And;
        let right = match translate_operand(&conditions[i].kind, op.binding_strength(), dialect) {
            Ok(e) => e,
            Err(e) => {
                return Err(e);
            },
        };
        let ghost so_far = condition@;
        let left = if condition.binding_strength() < op.binding_strength() {
            Box::new(SqlExpr::Nested(Box::new(condition)))
        } else {
            Box::new(condition)
        };
        proof {
            assert(left@ == parenthesized(so_far, op.strength() as int));
        }
        condition = SqlExpr::BinaryOp { left, op, right };
        i += 1;
    }
    proof {
        assert(all.take(i as int) =~= all);
    }
    Ok(Some(condition))
}

/// A number as a limit. It is marked as long if it takes more than thirty-two bits.
pub open spec fn limit_number(n: int) -> ExprView {
    ExprView::Value(ValueView::Number(int_text(n), !(0 <= n <= u32::MAX)))
}

/// A number as a limit.
pub fn expr_of_i64(number: i64) -> (r: SqlExpr)
    ensures
        r@ == limit_number(number as int),
{
    let long = !(0 <= number && number <= 0xffff_ffff);
    SqlExpr::Value(SqlValue::Number(int_to_text(number), long))
}

/// A limit that is written as `TOP`.
pub open spec fn top(n: int) -> TopView {
    TopView { with_ties: false, percent: false, quantity: Some(number(n)) }
}

/// A limit that is written as `TOP`.
pub fn top_of_i64(take: i64) -> (r: Top)
    ensures
        r@ == top(take as int),
{
    Top {
        quantity: Some(translate_literal(&Literal::Integer(take))),
        with_ties: false,
        percent: false,
    }
}

/// A column of a `SELECT`.
pub open spec fn select_item(expr: Expr, h: DialectHandler) -> Outcome<SelectItemView> {
    match expr_sql(expr.kind, h) {
        Outcome::Done(e) => Outcome::Done(
            match expr.alias {
                Some(alias) => SelectItemView::ExprWithAlias {
                    expr: e,
                    alias: ident_part(alias@, h),
                },
                None => SelectItemView::UnnamedExpr(e),
            },
        ),
        other => carried(other),
    }
}

/// Translates a column of a `SELECT`.
pub fn translate_select_item(expr: &Expr, dialect: &DialectHandler) -> (r: Result<
    SelectItem,
    Error,
>)
    requires
        expr_sql(expr.kind, *dialect) !is Undefined,
    ensures
        agrees(r, select_item(*expr, *dialect)),
{
    let inner = match translate_expr_kind(&expr.kind, dialect) {
        Ok(e) => e,
        Err(e) => {
            return Err(e);
        },
    };
    Ok(
        match &expr.alias {
            Some(alias) => SelectItem::ExprWithAlias {
                alias: translate_ident_part(alias.clone(), dialect),
                expr: inner,
            },
            None => SelectItem::UnnamedExpr(inner),
        },
    )
}

/// What a call is translated to.
pub open spec fn func_call(name: Seq<char>, args: Seq<Expr>, h: DialectHandler) -> Outcome<
    FunctionView,
> {
    match collect(exprs_sql(args, h)) {
        Outcome::Done(args) => Outcome::Done(
            FunctionView { name: seq![plain(name)], args, distinct: false, special: false },
        ),
        other => carried(other),
    }
}

/// Translates a call of a function that goes by its name.
pub fn translate_func_call(call: &FuncCall, dialect: &DialectHandler) -> (r: Result<
    Function,
    Error,
>)
    requires
        call.name.kind is Ident,
        collect(exprs_sql(call.args@, *dialect)) !is Undefined,
    ensures
        agrees(r, func_call(call.name.kind->Ident_0@, call.args@, *dialect)),
{
    let mut name: Vec<Ident> = Vec::new();
    if let ExprKind::Ident(ident) = &call.name.kind {
        name.push(Ident::new(ident.clone()));
    }
    proof {
        assert(views(name@) =~= seq![plain(call.name.kind->Ident_0@)]);
    }
    match try_into_exprs(&call.args, dialect) {
        Ok(args) => Ok(Function { name, args, distinct: false, special: false }),
        Err(e) => Err(e),
    }
}

// ---------------------------------------------------------------------------
// Laws
// ---------------------------------------------------------------------------

/// In whatever is translated, an operand that holds together less strongly than its operator
/// binds stands in parentheses, at every depth.
pub proof fn law_operands_are_parenthesized(kind: ExprKind, h: DialectHandler)
    ensures
        expr_sql(kind, h) is Done ==> well_nested(expr_sql(kind, h)->Done_0),
    decreases kind,
{
    reveal_with_fuel(well_nested, 3);
    match kind {
        ExprKind::Binary { op, left, right } => {
            law_operands_are_parenthesized(left.kind, h);
            law_operands_are_parenthesized(right.kind, h);
        },
        ExprKind::Unary { op, expr } => {
            law_operands_are_parenthesized(expr.kind, h);
        },
        ExprKind::FString(items) => {
            let args = f_string_args(items@, h);
            lemma_collect_done(args);
            if expr_sql(kind, h) is Done {
                assert forall|i: int| 0 <= i < args.len() implies well_nested(
                    #[trigger] collect(args)->Done_0[i],
                ) by {
                    assert(args[i] == Outcome::Done(collect(args)->Done_0[i]));
                    match items@[i] {
                        InterpolateItem::String(_) => {},
                        InterpolateItem::Expr(e) => {
                            law_operands_are_parenthesized(e.kind, h);
                        },
                    }
                }
            }
        },
        _ => {},
    }
}

/// A comparison with null is never written with `=` or `<>`, which SQL would not answer: it
/// is a test for null of the other side, whichever side the null stands on.
pub proof fn law_null_is_tested(op: BinOp, a: Box<Expr>, b: Box<Expr>, h: DialectHandler)
    requires
        compares_null(op, a.kind, b.kind),
    ensures
        expr_sql(ExprKind::Binary { left: a, op, right: b }, h) == expr_sql(
            ExprKind::Binary { left: b, op, right: a },
            h,
        ),
        expr_sql(ExprKind::Binary { left: a, op, right: b }, h) matches Outcome::Done(e) ==> {
            if op == BinOp::Eq {
                e is IsNull
            } else {
                e is IsNotNull
            }
        },
{
    assert(expr_sql(ExprKind::Binary { left: a, op, right: b }, h) == null_test(
        op,
        expr_sql(compared(*a, *b), h),
    ));
    assert(expr_sql(ExprKind::Binary { left: b, op, right: a }, h) == null_test(
        op,
        expr_sql(compared(*b, *a), h),
    ));
}

/// The expression is in the domain of the translation: it does not coalesce, and no bound of a
/// window is the smallest integer.
pub open spec fn translatable(kind: ExprKind) -> bool
    decreases kind,
{
    match kind {
        ExprKind::Binary { op, left, right } => op != BinOp::Coalesce && translatable(left.kind)
            && translatable(right.kind),
        ExprKind::Unary { expr, .. } => translatable(expr.kind),
        ExprKind::Range(range) => translatable_bound(range.start) && translatable_bound(range.end),
        ExprKind::SString(items) => forall|i: int|
            0 <= i < items@.len() ==> translatable_item(#[trigger] items@[i]),
        ExprKind::FString(items) => forall|i: int|
            0 <= i < items@.len() ==> translatable_item(#[trigger] items@[i]),
        ExprKind::Windowed(w) => {
            &&& translatable(w.expr.kind)
            &&& forall|i: int| 0 <= i < w.group@.len() ==> translatable((#[trigger] w.group@[i]).kind)
            &&& forall|i: int|
                0 <= i < w.sort@.len() ==> translatable((#[trigger] w.sort@[i]).column.kind)
            &&& window_frame(w.window.0, w.window.1) !is Undefined
        },
        _ => true,
    }
}

/// A piece of an interpolated string is in the domain of the translation.
pub open spec fn translatable_item(item: InterpolateItem) -> bool
    decreases item,
{
    match item {
        InterpolateItem::String(_) => true,
        InterpolateItem::Expr(e) => translatable(e.kind),
    }
}

/// A bound of a range is in the domain of the translation.
pub open spec fn translatable_bound(bound: Option<Box<Expr>>) -> bool
    decreases bound,
{
    match bound {
        Some(e) => translatable(e.kind),
        None => true,
    }
}

/// Every expression that does not coalesce and has no smallest integer as the bound of a window
/// is translated, or refused with an error.
pub proof fn law_domain(kind: ExprKind, h: DialectHandler)
    requires
        translatable(kind),
    ensures
        expr_sql(kind, h) !is Undefined,
    decreases kind,
{
    match kind {
        ExprKind::Binary { op, left, right } => {
            law_domain(left.kind, h);
            law_domain(right.kind, h);
        },
        ExprKind::Unary { op, expr } => {
            law_domain(expr.kind, h);
        },
        ExprKind::Range(range) => {
            assert(translatable_bound(range.start) && translatable_bound(range.end));
            if let Some(bound) = range.start {
                law_domain(bound.kind, h);
            }
            if let Some(bound) = range.end {
                law_domain(bound.kind, h);
            }
        },
        ExprKind::SString(items) => {
            let all = s_string_texts(items@, h);
            assert forall|i: int| 0 <= i < all.len() implies (#[trigger] all[i]) !is Undefined by {
                assert(translatable_item(items@[i]));
                if let InterpolateItem::Expr(e) = items@[i] {
                    law_domain(e.kind, h);
                }
            }
            lemma_collect_undefined(all);
        },
        ExprKind::FString(items) => {
            let all = f_string_args(items@, h);
            assert forall|i: int| 0 <= i < all.len() implies (#[trigger] all[i]) !is Undefined by {
                assert(translatable_item(items@[i]));
                if let InterpolateItem::Expr(e) = items@[i] {
                    law_domain(e.kind, h);
                }
            }
            lemma_collect_undefined(all);
        },
        ExprKind::Windowed(w) => {
            law_domain(w.expr.kind, h);
            let group = exprs_sql(w.group@, h);
            assert forall|i: int| 0 <= i < group.len() implies (
            #[trigger] group[i]) !is Undefined by {
                law_domain(w.group@[i].kind, h);
            }
            lemma_collect_undefined(group);
            let sort = sorts_sql(w.sort@, h);
            assert forall|i: int| 0 <= i < sort.len() implies (#[trigger] sort[i]) !is Undefined by {
                law_domain(w.sort@[i].column.kind, h);
            }
            lemma_collect_undefined(sort);
        },
        _ => {},
    }
}

} // verus!
