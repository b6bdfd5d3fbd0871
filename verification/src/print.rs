//! Printing. The SQL tree of this crate is rebuilt as one of `sqlparser`, which prints it;
//! `sqlformat` lays the text out.
//!
//! The types of `sqlparser` are opaque here. Of a value of such a type, a function named
//! `.._held` says what it holds, if it holds nothing but what the types of this crate can
//! describe.

use crate::ast::JoinSide;
use crate::sql::{
    group_views, option_view, views, BinaryOperator, Cte, CteView, DataType, DateTimeField,
    ExprView, FunctionView, Ident, IdentView, Join, JoinConstraint, JoinConstraintView,
    JoinOperator, JoinOperatorView, JoinView, OrderByExpr, OrderByView, QueryView, SelectItem,
    SelectItemView, SelectQuery, SelectQueryView, SelectView, SqlExpr, SqlQuery, SqlValue,
    TableFactor, TableFactorView, TableWithJoins, TableWithJoinsView, Top, TopView, UnaryOperator,
    ValueView, WindowFrame, WindowFrameBound, WindowFrameUnits, WindowSpec, WindowSpecView,
    WithView,
};
use sqlparser::ast::{
    BinaryOperator as SpBinaryOperator,
    Cte as SpCte,
    DataType as SpDataType,
    DateTimeField as SpDateTimeField,
    Expr as SpExpr,
    FunctionArg as SpFunctionArg,
    Ident as SpIdent,
    Join as SpJoin,
    JoinConstraint as SpJoinConstraint,
    OrderByExpr as SpOrderByExpr,
    Query as SpQuery,
    Select as SpSelect,
    SelectItem as SpSelectItem,
    TableFactor as SpTableFactor,
    TableWithJoins as SpTableWithJoins,
    Top as SpTop,
    UnaryOperator as SpUnaryOperator,
    WindowFrame as SpWindowFrame,
    WindowFrameBound as SpWindowFrameBound,
    WindowSpec as SpWindowSpec,
};
use vstd::prelude::*;

verus! {

broadcast use {group_views, crate::sql::lemma_function_view};

// ---------------------------------------------------------------------------
// The types of `sqlparser`
// ---------------------------------------------------------------------------

/// `sqlparser::ast::Ident`.
#[verifier::external_type_specification]
#[verifier::external_body]
pub struct ExIdent(SpIdent);

/// `sqlparser::ast::Expr`.
#[verifier::external_type_specification]
#[verifier::external_body]
pub struct ExExpr(SpExpr);

/// `sqlparser::ast::BinaryOperator`.
#[verifier::external_type_specification]
#[verifier::external_body]
pub struct ExBinaryOperator(SpBinaryOperator);

/// `sqlparser::ast::UnaryOperator`.
#[verifier::external_type_specification]
#[verifier::external_body]
pub struct ExUnaryOperator(SpUnaryOperator);

/// `sqlparser::ast::DateTimeField`.
#[verifier::external_type_specification]
#[verifier::external_body]
pub struct ExDateTimeField(SpDateTimeField);

/// `sqlparser::ast::DataType`.
#[verifier::external_type_specification]
#[verifier::external_body]
pub struct ExDataType(SpDataType);

/// `sqlparser::ast::FunctionArg`.
#[verifier::external_type_specification]
#[verifier::external_body]
pub struct ExFunctionArg(SpFunctionArg);

/// `sqlparser::ast::OrderByExpr`.
#[verifier::external_type_specification]
#[verifier::external_body]
pub struct ExOrderByExpr(SpOrderByExpr);

/// `sqlparser::ast::WindowFrameBound`.
#[verifier::external_type_specification]
#[verifier::external_body]
pub struct ExWindowFrameBound(SpWindowFrameBound);

/// `sqlparser::ast::WindowFrame`.
#[verifier::external_type_specification]
#[verifier::external_body]
pub struct ExWindowFrame(SpWindowFrame);

/// `sqlparser::ast::WindowSpec`.
#[verifier::external_type_specification]
#[verifier::external_body]
pub struct ExWindowSpec(SpWindowSpec);

/// `sqlparser::ast::SelectItem`.
#[verifier::external_type_specification]
#[verifier::external_body]
pub struct ExSelectItem(SpSelectItem);

/// `sqlparser::ast::TableFactor`.
#[verifier::external_type_specification]
#[verifier::external_body]
pub struct ExTableFactor(SpTableFactor);

/// `sqlparser::ast::JoinConstraint`.
#[verifier::external_type_specification]
#[verifier::external_body]
pub struct ExJoinConstraint(SpJoinConstraint);

/// `sqlparser::ast::Join`.
#[verifier::external_type_specification]
#[verifier::external_body]
pub struct ExJoin(SpJoin);

/// `sqlparser::ast::TableWithJoins`.
#[verifier::external_type_specification]
#[verifier::external_body]
pub struct ExTableWithJoins(SpTableWithJoins);

/// `sqlparser::ast::Top`.
#[verifier::external_type_specification]
#[verifier::external_body]
pub struct ExTop(SpTop);

/// `sqlparser::ast::Select`.
#[verifier::external_type_specification]
#[verifier::external_body]
pub struct ExSelect(SpSelect);

/// `sqlparser::ast::Query`.
#[verifier::external_type_specification]
#[verifier::external_body]
pub struct ExQuery(SpQuery);

/// `sqlparser::ast::Cte`.
#[verifier::external_type_specification]
#[verifier::external_body]
pub struct ExCte(SpCte);

// ---------------------------------------------------------------------------
// What their values hold
// ---------------------------------------------------------------------------

/// What a `sqlparser::ast::Ident` holds.
pub uninterp spec fn ident_held(v: SpIdent) -> Option<IdentView>;

/// What a `sqlparser::ast::Expr` holds.
pub uninterp spec fn expr_held(v: SpExpr) -> Option<ExprView>;

/// What a `sqlparser::ast::BinaryOperator` holds.
pub uninterp spec fn binary_operator_held(v: SpBinaryOperator) -> Option<BinaryOperator>;

/// What a `sqlparser::ast::UnaryOperator` holds.
pub uninterp spec fn unary_operator_held(v: SpUnaryOperator) -> Option<UnaryOperator>;

/// What a `sqlparser::ast::DateTimeField` holds.
pub uninterp spec fn date_time_field_held(v: SpDateTimeField) -> Option<DateTimeField>;

/// What a `sqlparser::ast::DataType` holds.
pub uninterp spec fn data_type_held(v: SpDataType) -> Option<DataType>;

/// What a `sqlparser::ast::FunctionArg` holds.
pub uninterp spec fn arg_held(v: SpFunctionArg) -> Option<ExprView>;

/// What a `sqlparser::ast::OrderByExpr` holds.
pub uninterp spec fn order_by_held(v: SpOrderByExpr) -> Option<OrderByView>;

/// What a `sqlparser::ast::WindowFrameBound` holds.
pub uninterp spec fn frame_bound_held(v: SpWindowFrameBound) -> Option<WindowFrameBound>;

/// What a `sqlparser::ast::WindowFrame` holds.
pub uninterp spec fn frame_held(v: SpWindowFrame) -> Option<WindowFrame>;

/// What a `sqlparser::ast::WindowSpec` holds.
pub uninterp spec fn window_held(v: SpWindowSpec) -> Option<WindowSpecView>;

/// What a `sqlparser::ast::SelectItem` holds.
pub uninterp spec fn select_item_held(v: SpSelectItem) -> Option<SelectItemView>;

/// What a `sqlparser::ast::TableFactor` holds.
pub uninterp spec fn table_factor_held(v: SpTableFactor) -> Option<TableFactorView>;

/// What a `sqlparser::ast::JoinConstraint` holds.
pub uninterp spec fn constraint_held(v: SpJoinConstraint) -> Option<JoinConstraintView>;

/// What a `sqlparser::ast::Join` holds.
pub uninterp spec fn join_held(v: SpJoin) -> Option<JoinView>;

/// What a `sqlparser::ast::TableWithJoins` holds.
pub uninterp spec fn table_with_joins_held(v: SpTableWithJoins) -> Option<TableWithJoinsView>;

/// What a `sqlparser::ast::Top` holds.
pub uninterp spec fn top_held(v: SpTop) -> Option<TopView>;

/// What a `sqlparser::ast::Select` holds.
pub uninterp spec fn select_held(v: SpSelect) -> Option<SelectView>;

/// What a `sqlparser::ast::Query` holds.
pub uninterp spec fn query_held(v: SpQuery) -> Option<QueryView>;

/// What a `sqlparser::ast::Cte` holds.
pub uninterp spec fn cte_held(v: SpCte) -> Option<CteView>;

/// What the members of a list hold, if each of them can be described.
pub open spec fn idents_held(s: Seq<SpIdent>) -> Option<Seq<IdentView>> {
    if forall|i: int| 0 <= i < s.len() ==> ident_held(#[trigger] s[i]) is Some {
        Some(Seq::new(s.len(), |i: int| ident_held(s[i])->0))
    } else {
        None
    }
}

pub open spec fn exprs_held(s: Seq<SpExpr>) -> Option<Seq<ExprView>> {
    if forall|i: int| 0 <= i < s.len() ==> expr_held(#[trigger] s[i]) is Some {
        Some(Seq::new(s.len(), |i: int| expr_held(s[i])->0))
    } else {
        None
    }
}

pub open spec fn args_held(s: Seq<SpFunctionArg>) -> Option<Seq<ExprView>> {
    if forall|i: int| 0 <= i < s.len() ==> arg_held(#[trigger] s[i]) is Some {
        Some(Seq::new(s.len(), |i: int| arg_held(s[i])->0))
    } else {
        None
    }
}

pub open spec fn orders_held(s: Seq<SpOrderByExpr>) -> Option<Seq<OrderByView>> {
    if forall|i: int| 0 <= i < s.len() ==> order_by_held(#[trigger] s[i]) is Some {
        Some(Seq::new(s.len(), |i: int| order_by_held(s[i])->0))
    } else {
        None
    }
}

pub open spec fn items_held(s: Seq<SpSelectItem>) -> Option<Seq<SelectItemView>> {
    if forall|i: int| 0 <= i < s.len() ==> select_item_held(#[trigger] s[i]) is Some {
        Some(Seq::new(s.len(), |i: int| select_item_held(s[i])->0))
    } else {
        None
    }
}

pub open spec fn joins_held(s: Seq<SpJoin>) -> Option<Seq<JoinView>> {
    if forall|i: int| 0 <= i < s.len() ==> join_held(#[trigger] s[i]) is Some {
        Some(Seq::new(s.len(), |i: int| join_held(s[i])->0))
    } else {
        None
    }
}

pub open spec fn tables_held(s: Seq<SpTableWithJoins>) -> Option<Seq<TableWithJoinsView>> {
    if forall|i: int| 0 <= i < s.len() ==> table_with_joins_held(#[trigger] s[i]) is Some {
        Some(Seq::new(s.len(), |i: int| table_with_joins_held(s[i])->0))
    } else {
        None
    }
}

pub open spec fn ctes_held(s: Seq<SpCte>) -> Option<Seq<CteView>> {
    if forall|i: int| 0 <= i < s.len() ==> cte_held(#[trigger] s[i]) is Some {
        Some(Seq::new(s.len(), |i: int| cte_held(s[i])->0))
    } else {
        None
    }
}

/// What an optional value holds.
pub open spec fn option_expr_held(o: Option<SpExpr>) -> Option<Option<ExprView>> {
    match o {
        Some(e) => match expr_held(e) {
            Some(v) => Some(Some(v)),
            None => None,
        },
        None => Some(None),
    }
}

// ---------------------------------------------------------------------------
// Building them
// ---------------------------------------------------------------------------

/// `sqlparser::ast::Ident::new` makes an identifier without quotation marks.
#[verifier::external_body]
fn sp_ident(value: String) -> (r: SpIdent)
    ensures
        ident_held(r) == Some(IdentView { value: value@, quote_style: None }),
{
    SpIdent::new(value)
}

/// `sqlparser::ast::Ident::with_quote` makes an identifier in quotation marks. It panics on a
/// mark other than these four.
#[verifier::external_body]
fn sp_quoted_ident(quote: char, value: String) -> (r: SpIdent)
    requires
        quote == '\'' || quote == '"' || quote == '`' || quote == '[',
    ensures
        forall|q: crate::ast::Quote|
            #[trigger] q.mark() == quote ==> ident_held(r) == Some(
                IdentView { value: value@, quote_style: Some(q) },
            ),
{
    SpIdent::with_quote(quote, value)
}

/// The variant `Identifier` of `sqlparser::ast::Expr`.
#[verifier::external_body]
fn sp_identifier(ident: SpIdent) -> (r: SpExpr)
    requires
        ident_held(ident) is Some,
    ensures
        expr_held(r) == Some(ExprView::Identifier(ident_held(ident)->0)),
{
    SpExpr::Identifier(ident)
}

/// The variant `CompoundIdentifier` of `sqlparser::ast::Expr`.
#[verifier::external_body]
fn sp_compound_identifier(idents: Vec<SpIdent>) -> (r: SpExpr)
    requires
        idents_held(idents@) is Some,
    ensures
        expr_held(r) == Some(ExprView::CompoundIdentifier(idents_held(idents@)->0)),
{
    SpExpr::CompoundIdentifier(idents)
}

/// The variant `IsNull` of `sqlparser::ast::Expr`.
#[verifier::external_body]
fn sp_is_null(expr: SpExpr) -> (r: SpExpr)
    requires
        expr_held(expr) is Some,
    ensures
        expr_held(r) == Some(ExprView::IsNull(Box::new(expr_held(expr)->0))),
{
    SpExpr::IsNull(Box::new(expr))
}

/// The variant `IsNotNull` of `sqlparser::ast::Expr`.
#[verifier::external_body]
fn sp_is_not_null(expr: SpExpr) -> (r: SpExpr)
    requires
        expr_held(expr) is Some,
    ensures
        expr_held(r) == Some(ExprView::IsNotNull(Box::new(expr_held(expr)->0))),
{
    SpExpr::IsNotNull(Box::new(expr))
}

/// The variant `Like` of `sqlparser::ast::Expr`.
#[verifier::external_body]
fn sp_like(negated: bool, expr: SpExpr, pattern: SpExpr, escape_char: Option<char>) -> (r: SpExpr)
    requires
        expr_held(expr) is Some,
        expr_held(pattern) is Some,
    ensures
        expr_held(r) == Some(
            ExprView::Like {
                negated,
                expr: Box::new(expr_held(expr)->0),
                pattern: Box::new(expr_held(pattern)->0),
                escape_char,
            },
        ),
{
    SpExpr::Like { negated, expr: Box::new(expr), pattern: Box::new(pattern), escape_char }
}

/// The variant `ILike` of `sqlparser::ast::Expr`.
#[verifier::external_body]
fn sp_ilike(negated: bool, expr: SpExpr, pattern: SpExpr, escape_char: Option<char>) -> (r: SpExpr)
    requires
        expr_held(expr) is Some,
        expr_held(pattern) is Some,
    ensures
        expr_held(r) == Some(
            ExprView::ILike {
                negated,
                expr: Box::new(expr_held(expr)->0),
                pattern: Box::new(expr_held(pattern)->0),
                escape_char,
            },
        ),
{
    SpExpr::ILike { negated, expr: Box::new(expr), pattern: Box::new(pattern), escape_char }
}

/// The variants of `sqlparser::ast::BinaryOperator` that have the same names.
#[verifier::external_body]
fn sp_binary_operator(op: BinaryOperator) -> (r: SpBinaryOperator)
    ensures
        binary_operator_held(r) == Some(op),
{
    match op {
        BinaryOperator::Plus => SpBinaryOperator::Plus,
        BinaryOperator::Minus => SpBinaryOperator::Minus,
        BinaryOperator::Multiply => SpBinaryOperator::Multiply,
        BinaryOperator::Divide => SpBinaryOperator::Divide,
        BinaryOperator::Modulo => SpBinaryOperator::Modulo,
        BinaryOperator::StringConcat => SpBinaryOperator::StringConcat,
        BinaryOperator::Gt => SpBinaryOperator::Gt, BinaryOperator::Lt => SpBinaryOperator::Lt,
        BinaryOperator::GtEq => SpBinaryOperator::GtEq, BinaryOperator::LtEq => SpBinaryOperator::LtEq,
        BinaryOperator::Eq => SpBinaryOperator::Eq, BinaryOperator::NotEq => SpBinaryOperator::NotEq,
        BinaryOperator::And => SpBinaryOperator::And, BinaryOperator::Or => SpBinaryOperator::Or,
        BinaryOperator::BitwiseOr => SpBinaryOperator::BitwiseOr,
        BinaryOperator::BitwiseAnd => SpBinaryOperator::BitwiseAnd,
        BinaryOperator::BitwiseXor => SpBinaryOperator::BitwiseXor,
    }
}

/// The variant `BinaryOp` of `sqlparser::ast::Expr`.
#[verifier::external_body]
fn sp_binary_op(left: SpExpr, op: SpBinaryOperator, right: SpExpr) -> (r: SpExpr)
    requires
        expr_held(left) is Some,
        binary_operator_held(op) is Some,
        expr_held(right) is Some,
    ensures
        expr_held(r) == Some(
            ExprView::BinaryOp {
                left: Box::new(expr_held(left)->0),
                op: binary_operator_held(op)->0,
                right: Box::new(expr_held(right)->0),
            },
        ),
{
    SpExpr::BinaryOp { left: Box::new(left), op, right: Box::new(right) }
}

/// The variants of `sqlparser::ast::UnaryOperator`, which have the same names.
#[verifier::external_body]
fn sp_unary_operator(op: UnaryOperator) -> (r: SpUnaryOperator)
    ensures
        unary_operator_held(r) == Some(op),
{
    match op {
        UnaryOperator::Plus => SpUnaryOperator::Plus,
        UnaryOperator::Minus => SpUnaryOperator::Minus,
        UnaryOperator::Not => SpUnaryOperator::Not,
        UnaryOperator::PGBitwiseNot => SpUnaryOperator::PGBitwiseNot,
        UnaryOperator::PGSquareRoot => SpUnaryOperator::PGSquareRoot,
        UnaryOperator::PGCubeRoot => SpUnaryOperator::PGCubeRoot,
        UnaryOperator::PGPostfixFactorial => SpUnaryOperator::PGPostfixFactorial,
        UnaryOperator::PGPrefixFactorial => SpUnaryOperator::PGPrefixFactorial,
        UnaryOperator::PGAbs => SpUnaryOperator::PGAbs,
    }
}

/// The variant `UnaryOp` of `sqlparser::ast::Expr`.
#[verifier::external_body]
fn sp_unary_op(op: SpUnaryOperator, expr: SpExpr) -> (r: SpExpr)
    requires
        unary_operator_held(op) is Some,
        expr_held(expr) is Some,
    ensures
        expr_held(r) == Some(
            ExprView::UnaryOp {
                op: unary_operator_held(op)->0,
                expr: Box::new(expr_held(expr)->0),
            },
        ),
{
    SpExpr::UnaryOp { op, expr: Box::new(expr) }
}

/// The variant `Nested` of `sqlparser::ast::Expr`.
#[verifier::external_body]
fn sp_nested(expr: SpExpr) -> (r: SpExpr)
    requires
        expr_held(expr) is Some,
    ensures
        expr_held(r) == Some(ExprView::Nested(Box::new(expr_held(expr)->0))),
{
    SpExpr::Nested(Box::new(expr))
}

/// The variant `Number` of `sqlparser::ast::Value`, as an expression.
#[verifier::external_body]
fn sp_number(text: String, long: bool) -> (r: SpExpr)
    ensures
        expr_held(r) == Some(ExprView::Value(ValueView::Number(text@, long))),
{
    SpExpr::Value(sqlparser::ast::Value::Number(text, long))
}

/// The variant `SingleQuotedString` of `sqlparser::ast::Value`, as an expression.
#[verifier::external_body]
fn sp_string(text: String) -> (r: SpExpr)
    ensures
        expr_held(r) == Some(ExprView::Value(ValueView::SingleQuotedString(text@))),
{
    SpExpr::Value(sqlparser::ast::Value::SingleQuotedString(text))
}

/// The variant `Boolean` of `sqlparser::ast::Value`, as an expression.
#[verifier::external_body]
fn sp_boolean(b: bool) -> (r: SpExpr)
    ensures
        expr_held(r) == Some(ExprView::Value(ValueView::Boolean(b))),
{
    SpExpr::Value(sqlparser::ast::Value::Boolean(b))
}

/// The variant `Null` of `sqlparser::ast::Value`, as an expression.
#[verifier::external_body]
fn sp_null() -> (r: SpExpr)
    ensures
        expr_held(r) == Some(ExprView::Value(ValueView::Null)),
{
    SpExpr::Value(sqlparser::ast::Value::Null)
}

/// The variants of `sqlparser::ast::DateTimeField` that have the same names.
#[verifier::external_body]
fn sp_date_time_field(field: DateTimeField) -> (r: SpDateTimeField)
    ensures
        date_time_field_held(r) == Some(field),
{
    match field {
        DateTimeField::Year => SpDateTimeField::Year,
        DateTimeField::Month => SpDateTimeField::Month,
        DateTimeField::Day => SpDateTimeField::Day,
        DateTimeField::Hour => SpDateTimeField::Hour,
        DateTimeField::Minute => SpDateTimeField::Minute,
        DateTimeField::Second => SpDateTimeField::Second,
    }
}

/// The variant `Interval` of `sqlparser::ast::Value`, with a leading field and without the
/// other options, as an expression.
#[verifier::external_body]
fn sp_interval(value: SpExpr, field: SpDateTimeField) -> (r: SpExpr)
    requires
        expr_held(value) is Some,
        date_time_field_held(field) is Some,
    ensures
        expr_held(r) == Some(
            ExprView::Value(
                ValueView::Interval {
                    value: Box::new(expr_held(value)->0),
                    leading_field: date_time_field_held(field)->0,
                },
            ),
        ),
{
    SpExpr::Value(sqlparser::ast::Value::Interval {
        value: Box::new(value),
        leading_field: Some(field),
        leading_precision: None,
        last_field: None,
        fractional_seconds_precision: None,
    })
}

/// The variants of `sqlparser::ast::DataType` that have the same names.
#[verifier::external_body]
fn sp_data_type(data_type: DataType) -> (r: SpDataType)
    ensures
        data_type_held(r) == Some(data_type),
{
    match data_type {
        DataType::Date => SpDataType::Date,
        DataType::Time => SpDataType::Time,
        DataType::Timestamp => SpDataType::Timestamp,
    }
}

/// The variant `TypedString` of `sqlparser::ast::Expr`.
#[verifier::external_body]
fn sp_typed_string(data_type: SpDataType, value: String) -> (r: SpExpr)
    requires
        data_type_held(data_type) is Some,
    ensures
        expr_held(r) == Some(
            ExprView::TypedString { data_type: data_type_held(data_type)->0, value: value@ },
        ),
{
    SpExpr::TypedString { data_type, value }
}

/// An argument without a name, of `sqlparser::ast::FunctionArg`.
#[verifier::external_body]
fn sp_arg(expr: SpExpr) -> (r: SpFunctionArg)
    requires
        expr_held(expr) is Some,
    ensures
        arg_held(r) == expr_held(expr),
{
    SpFunctionArg::Unnamed(sqlparser::ast::FunctionArgExpr::Expr(expr))
}

/// The variant `Function` of `sqlparser::ast::Expr`, without a window.
#[verifier::external_body]
fn sp_function(
    name: Vec<SpIdent>,
    args: Vec<SpFunctionArg>,
    distinct: bool,
    special: bool,
) -> (r: SpExpr)
    requires
        idents_held(name@) is Some,
        args_held(args@) is Some,
    ensures
        expr_held(r) == Some(
            ExprView::Function(
                FunctionView {
                    name: idents_held(name@)->0,
                    args: args_held(args@)->0,
                    distinct,
                    special,
                },
            ),
        ),
{
    let name = sqlparser::ast::ObjectName(name);
    SpExpr::Function(sqlparser::ast::Function { name, args, over: None, distinct, special })
}

/// The struct `sqlparser::ast::OrderByExpr`.
#[verifier::external_body]
fn sp_order_by(expr: SpExpr, asc: Option<bool>, nulls_first: Option<bool>) -> (r: SpOrderByExpr)
    requires
        expr_held(expr) is Some,
    ensures
        order_by_held(r) == Some(OrderByView { expr: expr_held(expr)->0, asc, nulls_first }),
{
    SpOrderByExpr { expr, asc, nulls_first }
}

/// The variants of `sqlparser::ast::WindowFrameBound`, which have the same names.
#[verifier::external_body]
fn sp_frame_bound(bound: WindowFrameBound) -> (r: SpWindowFrameBound)
    ensures
        frame_bound_held(r) == Some(bound),
{
    match bound {
        WindowFrameBound::CurrentRow => SpWindowFrameBound::CurrentRow,
        WindowFrameBound::Preceding(n) => SpWindowFrameBound::Preceding(n),
        WindowFrameBound::Following(n) => SpWindowFrameBound::Following(n),
    }
}

/// The struct `sqlparser::ast::WindowFrame`; its units have the same names.
#[verifier::external_body]
fn sp_frame(
    units: WindowFrameUnits,
    start_bound: SpWindowFrameBound,
    end_bound: Option<SpWindowFrameBound>,
) -> (r: SpWindowFrame)
    requires
        frame_bound_held(start_bound) is Some,
        end_bound matches Some(end) ==> frame_bound_held(end) is Some,
    ensures
        frame_held(r) == Some(
            WindowFrame {
                units,
                start_bound: frame_bound_held(start_bound)->0,
                end_bound: match end_bound {
                    Some(end) => frame_bound_held(end),
                    None => None,
                },
            },
        ),
{
    let units = match units {
        WindowFrameUnits::Rows => sqlparser::ast::WindowFrameUnits::Rows,
        WindowFrameUnits::Range => sqlparser::ast::WindowFrameUnits::Range,
    };
    SpWindowFrame { units, start_bound, end_bound }
}

/// The struct `sqlparser::ast::WindowSpec`.
#[verifier::external_body]
fn sp_window(
    partition_by: Vec<SpExpr>,
    order_by: Vec<SpOrderByExpr>,
    window_frame: Option<SpWindowFrame>,
) -> (r: SpWindowSpec)
    requires
        exprs_held(partition_by@) is Some,
        orders_held(order_by@) is Some,
        window_frame matches Some(frame) ==> frame_held(frame) is Some,
    ensures
        window_held(r) == Some(
            WindowSpecView {
                partition_by: exprs_held(partition_by@)->0,
                order_by: orders_held(order_by@)->0,
                window_frame: match window_frame {
                    Some(frame) => frame_held(frame),
                    None => None,
                },
            },
        ),
{
    SpWindowSpec { partition_by, order_by, window_frame }
}

/// The variant `UnnamedExpr` of `sqlparser::ast::SelectItem`.
#[verifier::external_body]
fn sp_unnamed_item(expr: SpExpr) -> (r: SpSelectItem)
    requires
        expr_held(expr) is Some,
    ensures
        select_item_held(r) == Some(SelectItemView::UnnamedExpr(expr_held(expr)->0)),
{
    SpSelectItem::UnnamedExpr(expr)
}

/// The variant `ExprWithAlias` of `sqlparser::ast::SelectItem`.
#[verifier::external_body]
fn sp_named_item(expr: SpExpr, alias: SpIdent) -> (r: SpSelectItem)
    requires
        expr_held(expr) is Some,
        ident_held(alias) is Some,
    ensures
        select_item_held(r) == Some(
            SelectItemView::ExprWithAlias {
                expr: expr_held(expr)->0,
                alias: ident_held(alias)->0,
            },
        ),
{
    SpSelectItem::ExprWithAlias { expr, alias }
}

/// The variant `Table` of `sqlparser::ast::TableFactor`, without an alias, arguments or hints.
#[verifier::external_body]
fn sp_table(name: Vec<SpIdent>) -> (r: SpTableFactor)
    requires
        idents_held(name@) is Some,
    ensures
        table_factor_held(r) == Some(
            TableFactorView { name: idents_held(name@)->0, alias: None },
        ),
{
    let name = sqlparser::ast::ObjectName(name);
    SpTableFactor::Table { name, alias: None, args: None, with_hints: vec![] }
}

/// The variant `Table` of `sqlparser::ast::TableFactor`, with an alias that names no columns,
/// without arguments or hints.
#[verifier::external_body]
fn sp_aliased_table(name: Vec<SpIdent>, alias: SpIdent) -> (r: SpTableFactor)
    requires
        idents_held(name@) is Some,
        ident_held(alias) is Some,
    ensures
        table_factor_held(r) == Some(
            TableFactorView { name: idents_held(name@)->0, alias: ident_held(alias) },
        ),
{
    let name = sqlparser::ast::ObjectName(name);
    let alias = Some(sqlparser::ast::TableAlias { name: alias, columns: vec![] });
    SpTableFactor::Table { name, alias, args: None, with_hints: vec![] }
}

/// The variant `On` of `sqlparser::ast::JoinConstraint`.
#[verifier::external_body]
fn sp_on(expr: SpExpr) -> (r: SpJoinConstraint)
    requires
        expr_held(expr) is Some,
    ensures
        constraint_held(r) == Some(JoinConstraintView::On(expr_held(expr)->0)),
{
    SpJoinConstraint::On(expr)
}

/// The variant `Using` of `sqlparser::ast::JoinConstraint`.
#[verifier::external_body]
fn sp_using(idents: Vec<SpIdent>) -> (r: SpJoinConstraint)
    requires
        idents_held(idents@) is Some,
    ensures
        constraint_held(r) == Some(JoinConstraintView::Using(idents_held(idents@)->0)),
{
    SpJoinConstraint::Using(idents)
}

/// The kind of a join with a condition.
pub open spec fn join_operator(side: JoinSide, c: JoinConstraintView) -> JoinOperatorView {
    match side {
        JoinSide::Inner => JoinOperatorView::Inner(c),
        JoinSide::Left => JoinOperatorView::LeftOuter(c),
        JoinSide::Right => JoinOperatorView::RightOuter(c),
        JoinSide::Full => JoinOperatorView::FullOuter(c),
    }
}

/// The struct `sqlparser::ast::Join`, with one of the variants of `JoinOperator` that keep
/// unmatched rows of no side, of one side, or of both.
#[verifier::external_body]
fn sp_join(relation: SpTableFactor, side: JoinSide, constraint: SpJoinConstraint) -> (r: SpJoin)
    requires
        table_factor_held(relation) is Some,
        constraint_held(constraint) is Some,
    ensures
        join_held(r) == Some(
            JoinView {
                relation: table_factor_held(relation)->0,
                join_operator: join_operator(side, constraint_held(constraint)->0),
            },
        ),
{
    let join_operator = match side {
        JoinSide::Inner => sqlparser::ast::JoinOperator::Inner(constraint),
        JoinSide::Left => sqlparser::ast::JoinOperator::LeftOuter(constraint),
        JoinSide::Right => sqlparser::ast::JoinOperator::RightOuter(constraint),
        JoinSide::Full => sqlparser::ast::JoinOperator::FullOuter(constraint),
    };
    SpJoin { relation, join_operator }
}

/// The struct `sqlparser::ast::TableWithJoins`.
#[verifier::external_body]
fn sp_table_with_joins(relation: SpTableFactor, joins: Vec<SpJoin>) -> (r: SpTableWithJoins)
    requires
        table_factor_held(relation) is Some,
        joins_held(joins@) is Some,
    ensures
        table_with_joins_held(r) == Some(
            TableWithJoinsView {
                relation: table_factor_held(relation)->0,
                joins: joins_held(joins@)->0,
            },
        ),
{
    SpTableWithJoins { relation, joins }
}

/// The struct `sqlparser::ast::Top`.
#[verifier::external_body]
fn sp_top(with_ties: bool, percent: bool, quantity: Option<SpExpr>) -> (r: SpTop)
    requires
        option_expr_held(quantity) is Some,
    ensures
        top_held(r) == Some(
            TopView { with_ties, percent, quantity: option_expr_held(quantity)->0 },
        ),
{
    SpTop { with_ties, percent, quantity }
}

/// The struct `sqlparser::ast::Select`, without the clauses that are not listed.
#[verifier::external_body]
fn sp_select(
    distinct: bool,
    top: Option<SpTop>,
    projection: Vec<SpSelectItem>,
    from: Vec<SpTableWithJoins>,
    selection: Option<SpExpr>,
    group_by: Vec<SpExpr>,
    having: Option<SpExpr>,
) -> (r: SpSelect)
    requires
        top matches Some(t) ==> top_held(t) is Some,
        items_held(projection@) is Some,
        tables_held(from@) is Some,
        option_expr_held(selection) is Some,
        exprs_held(group_by@) is Some,
        option_expr_held(having) is Some,
    ensures
        select_held(r) == Some(
            SelectView {
                distinct,
                top: match top {
                    Some(t) => top_held(t),
                    None => None,
                },
                projection: items_held(projection@)->0,
                from: tables_held(from@)->0,
                selection: option_expr_held(selection)->0,
                group_by: exprs_held(group_by@)->0,
                having: option_expr_held(having)->0,
            },
        ),
{
    SpSelect {
        distinct, top, projection, into: None, from, lateral_views: vec![], selection, group_by,
        cluster_by: vec![], distribute_by: vec![], sort_by: vec![], having, qualify: None,
    }
}

/// The struct `sqlparser::ast::Query`, around a `SELECT`, without the clauses that are not
/// listed; the offset does not say `ROWS`.
#[verifier::external_body]
fn sp_query(
    body: SpSelect,
    order_by: Vec<SpOrderByExpr>,
    limit: Option<SpExpr>,
    offset: Option<SpExpr>,
) -> (r: SpQuery)
    requires
        select_held(body) is Some,
        orders_held(order_by@) is Some,
        option_expr_held(limit) is Some,
        option_expr_held(offset) is Some,
    ensures
        query_held(r) == Some(
            QueryView {
                with: None,
                query: SelectQueryView {
                    body: select_held(body)->0,
                    order_by: orders_held(order_by@)->0,
                    limit: option_expr_held(limit)->0,
                    offset: option_expr_held(offset)->0,
                },
            },
        ),
{
    let body = Box::new(sqlparser::ast::SetExpr::Select(Box::new(body)));
    let rows = sqlparser::ast::OffsetRows::None;
    let offset = offset.map(|value| sqlparser::ast::Offset { value, rows });
    SpQuery { with: None, body, order_by, limit, offset, fetch: None, lock: None }
}

/// The struct `sqlparser::ast::Cte`, with an alias that names no columns.
#[verifier::external_body]
fn sp_cte(alias: SpIdent, query: SpQuery) -> (r: SpCte)
    requires
        ident_held(alias) is Some,
        query_held(query) is Some,
        query_held(query)->0.with is None,
    ensures
        cte_held(r) == Some(
            CteView { alias: ident_held(alias)->0, query: query_held(query)->0.query },
        ),
{
    let alias = sqlparser::ast::TableAlias { name: alias, columns: vec![] };
    SpCte { alias, query, from: None }
}

/// The field `with` of `sqlparser::ast::Query`, set.
#[verifier::external_body]
fn sp_with(query: SpQuery, recursive: bool, cte_tables: Vec<SpCte>) -> (r: SpQuery)
    requires
        query_held(query) is Some,
        ctes_held(cte_tables@) is Some,
    ensures
        query_held(r) == Some(
            QueryView {
                with: Some(WithView { recursive, cte_tables: ctes_held(cte_tables@)->0 }),
                query: query_held(query)->0.query,
            },
        ),
{
    let with = Some(sqlparser::ast::With { recursive, cte_tables });
    SpQuery { with, ..query }
}

// ---------------------------------------------------------------------------
// Printing them
// ---------------------------------------------------------------------------

/// The text that `sqlparser` prints for an expression.
pub uninterp spec fn expr_text(e: ExprView) -> Seq<char>;

/// The text that `sqlparser` prints for a window.
pub uninterp spec fn window_text(w: WindowSpecView) -> Seq<char>;

/// The text that `sqlparser` prints for a query.
pub uninterp spec fn query_text(q: QueryView) -> Seq<char>;

/// The text as `sqlformat` lays it out, with its default options and no parameters.
pub uninterp spec fn laid_out(s: Seq<char>) -> Seq<char>;

/// `Display` of `sqlparser::ast::Expr`: what it prints is a function of what the expression
/// holds.
#[verifier::external_body]
fn sp_expr_text(expr: &SpExpr) -> (r: String)
    requires
        expr_held(*expr) is Some,
    ensures
        r@ == expr_text(expr_held(*expr)->0),
{
    expr.to_string()
}

/// `Display` of `sqlparser::ast::WindowSpec`: what it prints is a function of what the window
/// holds.
#[verifier::external_body]
fn sp_window_text(window: &SpWindowSpec) -> (r: String)
    requires
        window_held(*window) is Some,
    ensures
        r@ == window_text(window_held(*window)->0),
{
    window.to_string()
}

/// `Display` of `sqlparser::ast::Query`: what it prints is a function of what the query holds.
#[verifier::external_body]
fn sp_query_text(query: &SpQuery) -> (r: String)
    requires
        query_held(*query) is Some,
    ensures
        r@ == query_text(query_held(*query)->0),
{
    query.to_string()
}

/// `sqlformat::format` with no parameters and its default options: what it returns is a
/// function of the text alone.
#[verifier::external_body]
pub(crate) fn lay_out(s: &str) -> (r: String)
    ensures
        r@ == laid_out(s@),
{
    sqlformat::format(s, &sqlformat::QueryParams::default(), sqlformat::FormatOptions::default())
}

// ---------------------------------------------------------------------------
// Rebuilding the tree
// ---------------------------------------------------------------------------

fn lower_ident(ident: &Ident) -> (r: SpIdent)
    ensures
        ident_held(r) == Some(ident@),
{
    match ident.quote_style {
        Some(quote) => sp_quoted_ident(quote.as_char(), ident.value.clone()),
        None => sp_ident(ident.value.clone()),
    }
}

fn lower_idents(v: &Vec<Ident>) -> (r: Vec<SpIdent>)
    ensures
        idents_held(r@) == Some(views(v@)),
{
    let mut r: Vec<SpIdent> = Vec::new();
    let mut i: usize = 0;
    while i < v.len()
        invariant
            i <= v@.len(),
            r@.len() == i,
            forall|j: int| 0 <= j < i ==> ident_held(#[trigger] r@[j]) == Some(v@[j]@),
        decreases v.len() - i,
    {
        r.push(lower_ident(&v[i]));
        i += 1;
    }
    proof {
        assert(idents_held(r@)->0 =~= views(v@));
    }
    r
}

fn lower_args(v: &Vec<SqlExpr>) -> (r: Vec<SpFunctionArg>)
    ensures
        args_held(r@) == Some(views(v@)),
    decreases v,
{
    let mut r: Vec<SpFunctionArg> = Vec::new();
    let mut i: usize = 0;
    while i < v.len()
        invariant
            i <= v@.len(),
            r@.len() == i,
            forall|j: int| 0 <= j < i ==> arg_held(#[trigger] r@[j]) == Some(v@[j]@),
        decreases v.len() - i,
    {
        let arg = lower_expr(&v[i]);
        r.push(sp_arg(arg));
        i += 1;
    }
    proof {
        assert(args_held(r@)->0 =~= views(v@));
    }
    r
}

fn lower_value(value: &SqlValue) -> (r: SpExpr)
    ensures
        expr_held(r) == Some(SqlExpr::Value(*value)@),
    decreases value,
{
    match value {
        SqlValue::Number(text, long) => sp_number(text.clone(), *long),
        SqlValue::SingleQuotedString(text) => sp_string(text.clone()),
        SqlValue::Boolean(b) => sp_boolean(*b),
        SqlValue::Interval { value, leading_field } => sp_interval(
            lower_expr(value),
            sp_date_time_field(*leading_field),
        ),
        SqlValue::Null => sp_null(),
    }
}

/// Rebuilds an expression.
fn lower_expr(expr: &SqlExpr) -> (r: SpExpr)
    ensures
        expr_held(r) == Some(expr@),
    decreases expr,
{
    match expr {
        SqlExpr::Identifier(ident) => sp_identifier(lower_ident(ident)),
        SqlExpr::CompoundIdentifier(idents) => sp_compound_identifier(lower_idents(idents)),
        SqlExpr::IsNull(inner) => sp_is_null(lower_expr(inner)),
        SqlExpr::IsNotNull(inner) => sp_is_not_null(lower_expr(inner)),
        SqlExpr::Like { negated, expr, pattern, escape_char } => sp_like(
            *negated,
            lower_expr(expr),
            lower_expr(pattern),
            *escape_char,
        ),
        SqlExpr::ILike { negated, expr, pattern, escape_char } => sp_ilike(
            *negated,
            lower_expr(expr),
            lower_expr(pattern),
            *escape_char,
        ),
        SqlExpr::BinaryOp { left, op, right } => sp_binary_op(
            lower_expr(left),
            sp_binary_operator(*op),
            lower_expr(right),
        ),
        SqlExpr::UnaryOp { op, expr } => sp_unary_op(sp_unary_operator(*op), lower_expr(expr)),
        SqlExpr::Nested(inner) => sp_nested(lower_expr(inner)),
        SqlExpr::Value(value) => lower_value(value),
        SqlExpr::TypedString { data_type, value } => sp_typed_string(
            sp_data_type(*data_type),
            value.clone(),
        ),
        SqlExpr::Function(f) => sp_function(
            lower_idents(&f.name),
            lower_args(&f.args),
            f.distinct,
            f.special,
        ),
    }
}

fn lower_option_expr(expr: &Option<SqlExpr>) -> (r: Option<SpExpr>)
    ensures
        option_expr_held(r) == Some(option_view(*expr)),
{
    match expr {
        Some(e) => Some(lower_expr(e)),
        None => None,
    }
}

fn lower_exprs(v: &Vec<SqlExpr>) -> (r: Vec<SpExpr>)
    ensures
        exprs_held(r@) == Some(views(v@)),
{
    let mut r: Vec<SpExpr> = Vec::new();
    let mut i: usize = 0;
    while i < v.len()
        invariant
            i <= v@.len(),
            r@.len() == i,
            forall|j: int| 0 <= j < i ==> expr_held(#[trigger] r@[j]) == Some(v@[j]@),
        decreases v.len() - i,
    {
        r.push(lower_expr(&v[i]));
        i += 1;
    }
    proof {
        assert(exprs_held(r@)->0 =~= views(v@));
    }
    r
}

fn lower_order_by(order: &OrderByExpr) -> (r: SpOrderByExpr)
    ensures
        order_by_held(r) == Some(order@),
{
    sp_order_by(lower_expr(&order.expr), order.asc, order.nulls_first)
}

fn lower_orders(v: &Vec<OrderByExpr>) -> (r: Vec<SpOrderByExpr>)
    ensures
        orders_held(r@) == Some(views(v@)),
{
    let mut r: Vec<SpOrderByExpr> = Vec::new();
    let mut i: usize = 0;
    while i < v.len()
        invariant
            i <= v@.len(),
            r@.len() == i,
            forall|j: int| 0 <= j < i ==> order_by_held(#[trigger] r@[j]) == Some(v@[j]@),
        decreases v.len() - i,
    {
        r.push(lower_order_by(&v[i]));
        i += 1;
    }
    proof {
        assert(orders_held(r@)->0 =~= views(v@));
    }
    r
}

fn lower_frame(frame: &WindowFrame) -> (r: SpWindowFrame)
    ensures
        frame_held(r) == Some(*frame),
{
    let end_bound = match frame.end_bound {
        Some(end) => Some(sp_frame_bound(end)),
        None => None,
    };
    sp_frame(frame.units, sp_frame_bound(frame.start_bound), end_bound)
}

fn lower_window(window: &WindowSpec) -> (r: SpWindowSpec)
    ensures
        window_held(r) == Some(window@),
{
    let window_frame = match &window.window_frame {
        Some(frame) => Some(lower_frame(frame)),
        None => None,
    };
    sp_window(lower_exprs(&window.partition_by), lower_orders(&window.order_by), window_frame)
}

fn lower_item(item: &SelectItem) -> (r: SpSelectItem)
    ensures
        select_item_held(r) == Some(item@),
{
    match item {
        SelectItem::UnnamedExpr(expr) => sp_unnamed_item(lower_expr(expr)),
        SelectItem::ExprWithAlias { expr, alias } => sp_named_item(
            lower_expr(expr),
            lower_ident(alias),
        ),
    }
}

fn lower_items(v: &Vec<SelectItem>) -> (r: Vec<SpSelectItem>)
    ensures
        items_held(r@) == Some(views(v@)),
{
    let mut r: Vec<SpSelectItem> = Vec::new();
    let mut i: usize = 0;
    while i < v.len()
        invariant
            i <= v@.len(),
            r@.len() == i,
            forall|j: int| 0 <= j < i ==> select_item_held(#[trigger] r@[j]) == Some(v@[j]@),
        decreases v.len() - i,
    {
        r.push(lower_item(&v[i]));
        i += 1;
    }
    proof {
        assert(items_held(r@)->0 =~= views(v@));
    }
    r
}

fn lower_table_factor(table: &TableFactor) -> (r: SpTableFactor)
    ensures
        table_factor_held(r) == Some(table@),
{
    let name = lower_idents(&table.name);
    match &table.alias {
        Some(alias) => sp_aliased_table(name, lower_ident(alias)),
        None => sp_table(name),
    }
}

fn lower_constraint(constraint: &JoinConstraint) -> (r: SpJoinConstraint)
    ensures
        constraint_held(r) == Some(constraint@),
{
    match constraint {
        JoinConstraint::On(expr) => sp_on(lower_expr(expr)),
        JoinConstraint::Using(idents) => sp_using(lower_idents(idents)),
    }
}

fn lower_join(join: &Join) -> (r: SpJoin)
    ensures
        join_held(r) == Some(join@),
{
    let relation = lower_table_factor(&join.relation);
    match &join.join_operator {
        JoinOperator::Inner(c) => sp_join(relation, JoinSide::Inner, lower_constraint(c)),
        JoinOperator::LeftOuter(c) => sp_join(relation, JoinSide::Left, lower_constraint(c)),
        JoinOperator::RightOuter(c) => sp_join(relation, JoinSide::Right, lower_constraint(c)),
        JoinOperator::FullOuter(c) => sp_join(relation, JoinSide::Full, lower_constraint(c)),
    }
}

fn lower_joins(v: &Vec<Join>) -> (r: Vec<SpJoin>)
    ensures
        joins_held(r@) == Some(views(v@)),
{
    let mut r: Vec<SpJoin> = Vec::new();
    let mut i: usize = 0;
    while i < v.len()
        invariant
            i <= v@.len(),
            r@.len() == i,
            forall|j: int| 0 <= j < i ==> join_held(#[trigger] r@[j]) == Some(v@[j]@),
        decreases v.len() - i,
    {
        r.push(lower_join(&v[i]));
        i += 1;
    }
    proof {
        assert(joins_held(r@)->0 =~= views(v@));
    }
    r
}

fn lower_table(table: &TableWithJoins) -> (r: SpTableWithJoins)
    ensures
        table_with_joins_held(r) == Some(table@),
{
    sp_table_with_joins(lower_table_factor(&table.relation), lower_joins(&table.joins))
}

fn lower_tables(v: &Vec<TableWithJoins>) -> (r: Vec<SpTableWithJoins>)
    ensures
        tables_held(r@) == Some(views(v@)),
{
    let mut r: Vec<SpTableWithJoins> = Vec::new();
    let mut i: usize = 0;
    while i < v.len()
        invariant
            i <= v@.len(),
            r@.len() == i,
            forall|j: int| 0 <= j < i ==> table_with_joins_held(#[trigger] r@[j]) == Some(v@[j]@),
        decreases v.len() - i,
    {
        r.push(lower_table(&v[i]));
        i += 1;
    }
    proof {
        assert(tables_held(r@)->0 =~= views(v@));
    }
    r
}

fn lower_top(top: &Top) -> (r: SpTop)
    ensures
        top_held(r) == Some(top@),
{
    sp_top(top.with_ties, top.percent, lower_option_expr(&top.quantity))
}

fn lower_select_query(query: &SelectQuery) -> (r: SpQuery)
    ensures
        query_held(r) == Some(QueryView { with: None, query: query@ }),
{
    let top = match &query.body.top {
        Some(top) => Some(lower_top(top)),
        None => None,
    };
    let body = sp_select(
        query.body.distinct,
        top,
        lower_items(&query.body.projection),
        lower_tables(&query.body.from),
        lower_option_expr(&query.body.selection),
        lower_exprs(&query.body.group_by),
        lower_option_expr(&query.body.having),
    );
    sp_query(
        body,
        lower_orders(&query.order_by),
        lower_option_expr(&query.limit),
        lower_option_expr(&query.offset),
    )
}

fn lower_cte(cte: &Cte) -> (r: SpCte)
    ensures
        cte_held(r) == Some(cte@),
{
    sp_cte(lower_ident(&cte.alias), lower_select_query(&cte.query))
}

fn lower_ctes(v: &Vec<Cte>) -> (r: Vec<SpCte>)
    ensures
        ctes_held(r@) == Some(views(v@)),
{
    let mut r: Vec<SpCte> = Vec::new();
    let mut i: usize = 0;
    while i < v.len()
        invariant
            i <= v@.len(),
            r@.len() == i,
            forall|j: int| 0 <= j < i ==> cte_held(#[trigger] r@[j]) == Some(v@[j]@),
        decreases v.len() - i,
    {
        r.push(lower_cte(&v[i]));
        i += 1;
    }
    proof {
        assert(ctes_held(r@)->0 =~= views(v@));
    }
    r
}

fn lower_query(query: &SqlQuery) -> (r: SpQuery)
    ensures
        query_held(r) == Some(query@),
{
    let main = lower_select_query(&query.query);
    match &query.with {
        Some(with) => sp_with(main, with.recursive, lower_ctes(&with.cte_tables)),
        None => main,
    }
}

/// Prints an expression.
pub fn expr_to_text(expr: &SqlExpr) -> (r: String)
    ensures
        r@ == expr_text(expr@),
{
    sp_expr_text(&lower_expr(expr))
}

/// Prints a window.
pub fn window_to_text(window: &WindowSpec) -> (r: String)
    ensures
        r@ == window_text(window@),
{
    sp_window_text(&lower_window(window))
}

/// Prints a query, on one line.
pub fn query_to_text(query: &SqlQuery) -> (r: String)
    ensures
        r@ == query_text(query@),
{
    sp_query_text(&lower_query(query))
}

} // verus!
