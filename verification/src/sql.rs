//! The SQL tree. Every type comes with a view, in which texts and lists are sequences.

use crate::ast::Quote;
use vstd::prelude::*;

verus! {

/// An identifier, or a text that is printed as it stands.
#[derive(Debug, PartialEq)]
pub struct Ident {
    pub value: String,
    pub quote_style: Option<Quote>,
}

#[verifier::ext_equal]
pub struct IdentView {
    pub value: Seq<char>,
    pub quote_style: Option<Quote>,
}

/// A binary operator.
#[derive(Debug, Clone, Copy, PartialEq, Eq, Structural)]
pub enum BinaryOperator {
    Plus,
    Minus,
    Multiply,
    Divide,
    Modulo,
    StringConcat,
    Gt,
    Lt,
    GtEq,
    LtEq,
    Eq,
    NotEq,
    And,
    Or,
    BitwiseOr,
    BitwiseAnd,
    BitwiseXor,
}

/// A unary operator.
#[derive(Debug, Clone, Copy, PartialEq, Eq, Structural)]
pub enum UnaryOperator {
    Plus,
    Minus,
    Not,
    PGBitwiseNot,
    PGSquareRoot,
    PGCubeRoot,
    PGPostfixFactorial,
    PGPrefixFactorial,
    PGAbs,
}

/// The unit of an interval.
#[derive(Debug, Clone, Copy, PartialEq, Eq, Structural)]
pub enum DateTimeField {
    Year,
    Month,
    Day,
    Hour,
    Minute,
    Second,
}

/// The type of a typed string.
#[derive(Debug, Clone, Copy, PartialEq, Eq, Structural)]
pub enum DataType {
    Date,
    Time,
    Timestamp,
}

/// A literal.
#[derive(Debug, PartialEq)]
pub enum SqlValue {
    /// A number, and whether it is marked as long.
    Number(String, bool),
    SingleQuotedString(String),
    Boolean(bool),
    Interval { value: Box<SqlExpr>, leading_field: DateTimeField },
    Null,
}

#[verifier::ext_equal]
pub enum ValueView {
    Number(Seq<char>, bool),
    SingleQuotedString(Seq<char>),
    Boolean(bool),
    Interval { value: Box<ExprView>, leading_field: DateTimeField },
    Null,
}

/// A call of a function, with arguments that have no names.
#[derive(Debug, PartialEq)]
pub struct Function {
    pub name: Vec<Ident>,
    pub args: Vec<SqlExpr>,
    pub distinct: bool,
    /// The call is printed without parentheses.
    pub special: bool,
}

#[verifier::ext_equal]
pub struct FunctionView {
    pub name: Seq<IdentView>,
    pub args: Seq<ExprView>,
    pub distinct: bool,
    pub special: bool,
}

/// An expression.
#[allow(inconsistent_fields)]
#[derive(Debug, PartialEq)]
pub enum SqlExpr {
    Identifier(Ident),
    CompoundIdentifier(Vec<Ident>),
    IsNull(Box<SqlExpr>),
    IsNotNull(Box<SqlExpr>),
    Like {
        negated: bool,
        expr: Box<SqlExpr>,
        pattern: Box<SqlExpr>,
        escape_char: Option<char>,
    },
    ILike {
        negated: bool,
        expr: Box<SqlExpr>,
        pattern: Box<SqlExpr>,
        escape_char: Option<char>,
    },
    BinaryOp { left: Box<SqlExpr>, op: BinaryOperator, right: Box<SqlExpr> },
    UnaryOp { op: UnaryOperator, expr: Box<SqlExpr> },
    Nested(Box<SqlExpr>),
    Value(SqlValue),
    TypedString { data_type: DataType, value: String },
    Function(Function),
}

#[allow(inconsistent_fields)]
#[verifier::ext_equal]
pub enum ExprView {
    Identifier(IdentView),
    CompoundIdentifier(Seq<IdentView>),
    IsNull(Box<ExprView>),
    IsNotNull(Box<ExprView>),
    Like {
        negated: bool,
        expr: Box<ExprView>,
        pattern: Box<ExprView>,
        escape_char: Option<char>,
    },
    ILike {
        negated: bool,
        expr: Box<ExprView>,
        pattern: Box<ExprView>,
        escape_char: Option<char>,
    },
    BinaryOp { left: Box<ExprView>, op: BinaryOperator, right: Box<ExprView> },
    UnaryOp { op: UnaryOperator, expr: Box<ExprView> },
    Nested(Box<ExprView>),
    Value(ValueView),
    TypedString { data_type: DataType, value: Seq<char> },
    Function(FunctionView),
}

/// What the bounds of a window frame count.
#[derive(Debug, Clone, Copy, PartialEq, Eq, Structural)]
pub enum WindowFrameUnits {
    Rows,
    Range,
}

/// A bound of a window frame; without a number it is unbounded.
#[derive(Debug, Clone, Copy, PartialEq, Eq, Structural)]
pub enum WindowFrameBound {
    CurrentRow,
    Preceding(Option<u64>),
    Following(Option<u64>),
}

/// The rows of a window that an expression sees.
#[derive(Debug, Clone, Copy, PartialEq, Eq, Structural)]
pub struct WindowFrame {
    pub units: WindowFrameUnits,
    pub start_bound: WindowFrameBound,
    pub end_bound: Option<WindowFrameBound>,
}

/// A column of an `ORDER BY`.
#[derive(Debug, PartialEq)]
pub struct OrderByExpr {
    pub expr: SqlExpr,
    pub asc: Option<bool>,
    pub nulls_first: Option<bool>,
}

#[verifier::ext_equal]
pub struct OrderByView {
    pub expr: ExprView,
    pub asc: Option<bool>,
    pub nulls_first: Option<bool>,
}

/// The window of an expression.
#[derive(Debug, PartialEq)]
pub struct WindowSpec {
    pub partition_by: Vec<SqlExpr>,
    pub order_by: Vec<OrderByExpr>,
    pub window_frame: Option<WindowFrame>,
}

#[verifier::ext_equal]
pub struct WindowSpecView {
    pub partition_by: Seq<ExprView>,
    pub order_by: Seq<OrderByView>,
    pub window_frame: Option<WindowFrame>,
}

/// A column of a `SELECT`.
#[derive(Debug, PartialEq)]
pub enum SelectItem {
    UnnamedExpr(SqlExpr),
    ExprWithAlias { expr: SqlExpr, alias: Ident },
}

#[verifier::ext_equal]
pub enum SelectItemView {
    UnnamedExpr(ExprView),
    ExprWithAlias { expr: ExprView, alias: IdentView },
}

/// A table, under another name if it has an alias.
#[derive(Debug, PartialEq)]
pub struct TableFactor {
    pub name: Vec<Ident>,
    pub alias: Option<Ident>,
}

#[verifier::ext_equal]
pub struct TableFactorView {
    pub name: Seq<IdentView>,
    pub alias: Option<IdentView>,
}

/// The condition of a join.
#[derive(Debug, PartialEq)]
pub enum JoinConstraint {
    On(SqlExpr),
    Using(Vec<Ident>),
}

#[verifier::ext_equal]
pub enum JoinConstraintView {
    On(ExprView),
    Using(Seq<IdentView>),
}

/// The kind of a join, with its condition.
#[derive(Debug, PartialEq)]
pub enum JoinOperator {
    Inner(JoinConstraint),
    LeftOuter(JoinConstraint),
    RightOuter(JoinConstraint),
    FullOuter(JoinConstraint),
}

#[verifier::ext_equal]
pub enum JoinOperatorView {
    Inner(JoinConstraintView),
    LeftOuter(JoinConstraintView),
    RightOuter(JoinConstraintView),
    FullOuter(JoinConstraintView),
}

/// A join.
#[derive(Debug, PartialEq)]
pub struct Join {
    pub relation: TableFactor,
    pub join_operator: JoinOperator,
}

#[verifier::ext_equal]
pub struct JoinView {
    pub relation: TableFactorView,
    pub join_operator: JoinOperatorView,
}

/// A table and what is joined to it.
#[derive(Debug, PartialEq)]
pub struct TableWithJoins {
    pub relation: TableFactor,
    pub joins: Vec<Join>,
}

#[verifier::ext_equal]
pub struct TableWithJoinsView {
    pub relation: TableFactorView,
    pub joins: Seq<JoinView>,
}

/// A limit that is written as `TOP`.
#[derive(Debug, PartialEq)]
pub struct Top {
    pub with_ties: bool,
    pub percent: bool,
    pub quantity: Option<SqlExpr>,
}

#[verifier::ext_equal]
pub struct TopView {
    pub with_ties: bool,
    pub percent: bool,
    pub quantity: Option<ExprView>,
}

/// A `SELECT`.
#[derive(Debug, PartialEq)]
pub struct Select {
    pub distinct: bool,
    pub top: Option<Top>,
    pub projection: Vec<SelectItem>,
    pub from: Vec<TableWithJoins>,
    pub selection: Option<SqlExpr>,
    pub group_by: Vec<SqlExpr>,
    pub having: Option<SqlExpr>,
}

#[verifier::ext_equal]
pub struct SelectView {
    pub distinct: bool,
    pub top: Option<TopView>,
    pub projection: Seq<SelectItemView>,
    pub from: Seq<TableWithJoinsView>,
    pub selection: Option<ExprView>,
    pub group_by: Seq<ExprView>,
    pub having: Option<ExprView>,
}

/// A `SELECT` with its order and its limits.
#[derive(Debug, PartialEq)]
pub struct SelectQuery {
    pub body: Select,
    pub order_by: Vec<OrderByExpr>,
    pub limit: Option<SqlExpr>,
    pub offset: Option<SqlExpr>,
}

#[verifier::ext_equal]
pub struct SelectQueryView {
    pub body: SelectView,
    pub order_by: Seq<OrderByView>,
    pub limit: Option<ExprView>,
    pub offset: Option<ExprView>,
}

/// A named query that other queries can select from.
#[derive(Debug, PartialEq)]
pub struct Cte {
    pub alias: Ident,
    pub query: SelectQuery,
}

#[verifier::ext_equal]
pub struct CteView {
    pub alias: IdentView,
    pub query: SelectQueryView,
}

/// The named queries of a query.
#[derive(Debug, PartialEq)]
pub struct With {
    pub recursive: bool,
    pub cte_tables: Vec<Cte>,
}

#[verifier::ext_equal]
pub struct WithView {
    pub recursive: bool,
    pub cte_tables: Seq<CteView>,
}

/// A whole query.
#[derive(Debug, PartialEq)]
pub struct SqlQuery {
    pub with: Option<With>,
    pub query: SelectQuery,
}

#[verifier::ext_equal]
pub struct QueryView {
    pub with: Option<WithView>,
    pub query: SelectQueryView,
}

// ---------------------------------------------------------------------------
// Views
// ---------------------------------------------------------------------------

/// An optional value, viewed.
pub open spec fn option_view<T: View>(o: Option<T>) -> Option<T::V> {
    match o {
        Some(v) => Some(v@),
        None => None,
    }
}

/// A list, viewed.
pub open spec fn views<T: View>(s: Seq<T>) -> Seq<T::V> {
    Seq::new(s.len(), |i: int| s[i]@)
}

/// One more value at the end of a list.
pub broadcast proof fn lemma_views_push<T: View>(s: Seq<T>, v: T)
    ensures
        #[trigger] views(s.push(v)) == views(s).push(v@),
{
    assert(views(s.push(v)) =~= views(s).push(v@));
}

/// The empty list.
pub broadcast proof fn lemma_views_empty<T: View>(s: Seq<T>)
    requires
        s.len() == 0,
    ensures
        #[trigger] views(s) == Seq::<T::V>::empty(),
{
    assert(views(s) =~= Seq::<T::V>::empty());
}

/// How lists are viewed while they are built.
pub broadcast group group_views {
    lemma_views_push,
    lemma_views_empty,
}

impl View for Ident {
    type V = IdentView;

    open spec fn view(&self) -> IdentView {
        IdentView { value: self.value@, quote_style: self.quote_style }
    }
}

/// An expression, viewed.
pub open spec fn expr_view(e: SqlExpr) -> ExprView
    decreases e,
{
    match e {
        SqlExpr::Identifier(ident) => ExprView::Identifier(ident@),
        SqlExpr::CompoundIdentifier(idents) => ExprView::CompoundIdentifier(views(idents@)),
        SqlExpr::IsNull(inner) => ExprView::IsNull(Box::new(expr_view(*inner))),
        SqlExpr::IsNotNull(inner) => ExprView::IsNotNull(Box::new(expr_view(*inner))),
        SqlExpr::Like { negated, expr, pattern, escape_char } => ExprView::Like {
            negated,
            expr: Box::new(expr_view(*expr)),
            pattern: Box::new(expr_view(*pattern)),
            escape_char,
        },
        SqlExpr::ILike { negated, expr, pattern, escape_char } => ExprView::ILike {
            negated,
            expr: Box::new(expr_view(*expr)),
            pattern: Box::new(expr_view(*pattern)),
            escape_char,
        },
        SqlExpr::BinaryOp { left, op, right } => ExprView::BinaryOp {
            left: Box::new(expr_view(*left)),
            op,
            right: Box::new(expr_view(*right)),
        },
        SqlExpr::UnaryOp { op, expr } => ExprView::UnaryOp { op, expr: Box::new(expr_view(*expr)) },
        SqlExpr::Nested(inner) => ExprView::Nested(Box::new(expr_view(*inner))),
        SqlExpr::Value(value) => ExprView::Value(
            match value {
                SqlValue::Number(text, long) => ValueView::Number(text@, long),
                SqlValue::SingleQuotedString(text) => ValueView::SingleQuotedString(text@),
                SqlValue::Boolean(b) => ValueView::Boolean(b),
                SqlValue::Interval { value, leading_field } => ValueView::Interval {
                    value: Box::new(expr_view(*value)),
                    leading_field,
                },
                SqlValue::Null => ValueView::Null,
            },
        ),
        SqlExpr::TypedString { data_type, value } => ExprView::TypedString {
            data_type,
            value: value@,
        },
        SqlExpr::Function(f) => ExprView::Function(
            FunctionView {
                name: views(f.name@),
                args: Seq::new(
                    f.args@.len(),
                    |i: int|
                        if 0 <= i < f.args@.len() {
                            expr_view(f.args@[i])
                        } else {
                            arbitrary()
                        },
                ),
                distinct: f.distinct,
                special: f.special,
            },
        ),
    }
}

impl View for SqlExpr {
    type V = ExprView;

    open spec fn view(&self) -> ExprView {
        expr_view(*self)
    }
}

impl View for Function {
    type V = FunctionView;

    open spec fn view(&self) -> FunctionView {
        FunctionView {
            name: views(self.name@),
            args: views(self.args@),
            distinct: self.distinct,
            special: self.special,
        }
    }
}

/// The view of a call holds the views of its arguments.
pub broadcast proof fn lemma_function_view(f: Function)
    ensures
        #[trigger] expr_view(SqlExpr::Function(f)) == ExprView::Function(f@),
{
    assert(expr_view(SqlExpr::Function(f))->Function_0.args =~= views(f.args@));
}

impl View for OrderByExpr {
    type V = OrderByView;

    open spec fn view(&self) -> OrderByView {
        OrderByView { expr: self.expr@, asc: self.asc, nulls_first: self.nulls_first }
    }
}

impl View for WindowSpec {
    type V = WindowSpecView;

    open spec fn view(&self) -> WindowSpecView {
        WindowSpecView {
            partition_by: views(self.partition_by@),
            order_by: views(self.order_by@),
            window_frame: self.window_frame,
        }
    }
}

impl View for WindowFrame {
    type V = WindowFrame;

    open spec fn view(&self) -> WindowFrame {
        *self
    }
}

impl View for WindowFrameBound {
    type V = WindowFrameBound;

    open spec fn view(&self) -> WindowFrameBound {
        *self
    }
}

impl View for SelectItem {
    type V = SelectItemView;

    open spec fn view(&self) -> SelectItemView {
        match *self {
            SelectItem::UnnamedExpr(expr) => SelectItemView::UnnamedExpr(expr@),
            SelectItem::ExprWithAlias { expr, alias } => SelectItemView::ExprWithAlias {
                expr: expr@,
                alias: alias@,
            },
        }
    }
}

impl View for TableFactor {
    type V = TableFactorView;

    open spec fn view(&self) -> TableFactorView {
        TableFactorView { name: views(self.name@), alias: option_view(self.alias) }
    }
}

impl View for JoinConstraint {
    type V = JoinConstraintView;

    open spec fn view(&self) -> JoinConstraintView {
        match *self {
            JoinConstraint::On(expr) => JoinConstraintView::On(expr@),
            JoinConstraint::Using(idents) => JoinConstraintView::Using(views(idents@)),
        }
    }
}

impl View for JoinOperator {
    type V = JoinOperatorView;

    open spec fn view(&self) -> JoinOperatorView {
        match *self {
            JoinOperator::Inner(c) => JoinOperatorView::Inner(c@),
            JoinOperator::LeftOuter(c) => JoinOperatorView::LeftOuter(c@),
            JoinOperator::RightOuter(c) => JoinOperatorView::RightOuter(c@),
            JoinOperator::FullOuter(c) => JoinOperatorView::FullOuter(c@),
        }
    }
}

impl View for Join {
    type V = JoinView;

    open spec fn view(&self) -> JoinView {
        JoinView { relation: self.relation@, join_operator: self.join_operator@ }
    }
}

impl View for TableWithJoins {
    type V = TableWithJoinsView;

    open spec fn view(&self) -> TableWithJoinsView {
        TableWithJoinsView { relation: self.relation@, joins: views(self.joins@) }
    }
}

impl View for Top {
    type V = TopView;

    open spec fn view(&self) -> TopView {
        TopView {
            with_ties: self.with_ties,
            percent: self.percent,
            quantity: option_view(self.quantity),
        }
    }
}

impl View for Select {
    type V = SelectView;

    open spec fn view(&self) -> SelectView {
        SelectView {
            distinct: self.distinct,
            top: option_view(self.top),
            projection: views(self.projection@),
            from: views(self.from@),
            selection: option_view(self.selection),
            group_by: views(self.group_by@),
            having: option_view(self.having),
        }
    }
}

impl View for SelectQuery {
    type V = SelectQueryView;

    open spec fn view(&self) -> SelectQueryView {
        SelectQueryView {
            body: self.body@,
            order_by: views(self.order_by@),
            limit: option_view(self.limit),
            offset: option_view(self.offset),
        }
    }
}

impl View for Cte {
    type V = CteView;

    open spec fn view(&self) -> CteView {
        CteView { alias: self.alias@, query: self.query@ }
    }
}

impl View for With {
    type V = WithView;

    open spec fn view(&self) -> WithView {
        WithView { recursive: self.recursive, cte_tables: views(self.cte_tables@) }
    }
}

impl View for SqlQuery {
    type V = QueryView;

    open spec fn view(&self) -> QueryView {
        QueryView { with: option_view(self.with), query: self.query@ }
    }
}

// ---------------------------------------------------------------------------
// Binding strength
// ---------------------------------------------------------------------------

impl BinaryOperator {
    /// How strongly the operator binds its operands.
    pub open spec fn strength(self) -> i32 {
        match self {
            BinaryOperator::Modulo | BinaryOperator::Multiply | BinaryOperator::Divide => 11,
            BinaryOperator::Minus | BinaryOperator::Plus => 10,
            BinaryOperator::Gt | BinaryOperator::Lt | BinaryOperator::GtEq | BinaryOperator::LtEq
            | BinaryOperator::Eq | BinaryOperator::NotEq => 6,
            BinaryOperator::And => 3,
            BinaryOperator::Or => 2,
            _ => 9,
        }
    }

    /// How strongly the operator binds its operands.
    pub fn binding_strength(&self) -> (r: i32)
        ensures
            r == self.strength(),
    {
        match self {
            BinaryOperator::Modulo | BinaryOperator::Multiply | BinaryOperator::Divide => 11,
            BinaryOperator::Minus | BinaryOperator::Plus => 10,
            BinaryOperator::Gt | BinaryOperator::Lt | BinaryOperator::GtEq | BinaryOperator::LtEq
            | BinaryOperator::Eq | BinaryOperator::NotEq => 6,
            BinaryOperator::And => 3,
            BinaryOperator::Or => 2,
            _ => 9,
        }
    }
}

impl UnaryOperator {
    /// How strongly the operator binds its operand.
    pub open spec fn strength(self) -> i32 {
        match self {
            UnaryOperator::Minus | UnaryOperator::Plus => 13,
            UnaryOperator::Not => 4,
            _ => 9,
        }
    }

    /// How strongly the operator binds its operand.
    pub fn binding_strength(&self) -> (r: i32)
        ensures
            r == self.strength(),
    {
        match self {
            UnaryOperator::Minus | UnaryOperator::Plus => 13,
            UnaryOperator::Not => 4,
            _ => 9,
        }
    }
}

impl ExprView {
    /// How strongly an expression holds together: that of its topmost operator. Expressions
    /// without an operator (literals, calls) hold more strongly than any operator binds.
    pub open spec fn strength(self) -> i32 {
        match self {
            ExprView::BinaryOp { op, .. } => op.strength(),
            ExprView::UnaryOp { op, .. } => op.strength(),
            ExprView::Like { .. } | ExprView::ILike { .. } => 7,
            ExprView::IsNull(_) | ExprView::IsNotNull(_) => 5,
            _ => 20,
        }
    }
}

impl SqlExpr {
    /// How strongly the expression holds together.
    pub fn binding_strength(&self) -> (r: i32)
        ensures
            r == self@.strength(),
    {
        match self {
            SqlExpr::BinaryOp { op, .. } => op.binding_strength(),
            SqlExpr::UnaryOp { op, .. } => op.binding_strength(),
            SqlExpr::Like { .. } | SqlExpr::ILike { .. } => 7,
            SqlExpr::IsNull(_) | SqlExpr::IsNotNull(_) => 5,
            _ => 20,
        }
    }
}

/// Every operand in an expression holds together at least as strongly as the operator above
/// it binds.
pub open spec fn well_nested(e: ExprView) -> bool
    decreases e,
{
    match e {
        ExprView::BinaryOp { left, op, right } => {
            &&& left.strength() >= op.strength()
            &&& right.strength() >= op.strength()
            &&& well_nested(*left)
            &&& well_nested(*right)
        },
        ExprView::UnaryOp { op, expr } => expr.strength() >= op.strength() && well_nested(*expr),
        ExprView::IsNull(expr) => expr.strength() >= e.strength() && well_nested(*expr),
        ExprView::IsNotNull(expr) => expr.strength() >= e.strength() && well_nested(*expr),
        ExprView::Like { expr, pattern, .. } => {
            &&& expr.strength() >= e.strength()
            &&& pattern.strength() >= e.strength()
            &&& well_nested(*expr)
            &&& well_nested(*pattern)
        },
        ExprView::ILike { expr, pattern, .. } => {
            &&& expr.strength() >= e.strength()
            &&& pattern.strength() >= e.strength()
            &&& well_nested(*expr)
            &&& well_nested(*pattern)
        },
        ExprView::Nested(expr) => well_nested(*expr),
        ExprView::Value(ValueView::Interval { value, .. }) => well_nested(*value),
        ExprView::Function(f) => forall|i: int|
            0 <= i < f.args.len() ==> well_nested(#[trigger] f.args[i]),
        _ => true,
    }
}

/// Expressions without an operator hold together more strongly than any operator binds, so that
/// they are never put in parentheses.
pub proof fn law_other_expressions_hold_strongest(
    e: ExprView,
    binary: BinaryOperator,
    unary: UnaryOperator,
)
    requires
        !(e is BinaryOp || e is UnaryOp || e is Like || e is ILike || e is IsNull
            || e is IsNotNull),
    ensures
        e.strength() > binary.strength(),
        e.strength() > unary.strength(),
{
}

/// An operator that multiplies or divides.
pub open spec fn is_multiplicative(op: BinaryOperator) -> bool {
    op is Multiply || op is Divide || op is Modulo
}

/// An operator that adds or subtracts.
pub open spec fn is_additive(op: BinaryOperator) -> bool {
    op is Plus || op is Minus
}

/// An operator that compares.
pub open spec fn is_comparison(op: BinaryOperator) -> bool {
    op is Gt || op is Lt || op is GtEq || op is LtEq || op is Eq || op is NotEq
}

/// From the strongest to the weakest: signs, multiplication, addition, other operators, matching
/// by pattern, comparison, the test for null, negation, `AND`, and `OR`. Operators of one of
/// these sorts bind equally.
pub proof fn law_precedence(a: BinaryOperator, b: BinaryOperator, u: UnaryOperator, e: ExprView)
    ensures
        is_multiplicative(a) && is_multiplicative(b) ==> a.strength() == b.strength(),
        is_additive(a) && is_additive(b) ==> a.strength() == b.strength(),
        is_comparison(a) && is_comparison(b) ==> a.strength() == b.strength(),
        u is Plus || u is Minus ==> u.strength() > a.strength(),
        is_multiplicative(a) && !is_multiplicative(b) ==> a.strength() > b.strength(),
        is_additive(a) && !is_multiplicative(b) && !is_additive(b) ==> a.strength() > b.strength(),
        !(is_comparison(a) || a is And || a is Or) && (is_comparison(b) || b is And || b is Or)
            ==> a.strength() > b.strength(),
        is_comparison(a) && (b is And || b is Or) ==> a.strength() > b.strength(),
        BinaryOperator::And.strength() > BinaryOperator::Or.strength(),
        UnaryOperator::Minus.strength() == UnaryOperator::Plus.strength(),
        !(u is Plus || u is Minus || u is Not) ==> {
            &&& u.strength() == BinaryOperator::StringConcat.strength()
            &&& is_additive(a) ==> a.strength() > u.strength()
            &&& is_comparison(a) ==> u.strength() > a.strength()
        },
        !(is_multiplicative(a) || is_additive(a) || is_comparison(a) || a is And || a is Or)
            ==> a.strength() == BinaryOperator::StringConcat.strength(),
        e is Like || e is ILike ==> {
            &&& is_comparison(a) ==> e.strength() > a.strength()
            &&& BinaryOperator::StringConcat.strength() > e.strength()
        },
        e is IsNull || e is IsNotNull ==> {
            &&& is_comparison(a) ==> a.strength() > e.strength()
            &&& e.strength() > UnaryOperator::Not.strength()
        },
        UnaryOperator::Not.strength() > BinaryOperator::And.strength(),
        e matches ExprView::BinaryOp { op, .. } ==> e.strength() == op.strength(),
        e matches ExprView::UnaryOp { op, .. } ==> e.strength() == op.strength(),
{
}

/// A list of views has the view of each member of a list in its place.
pub open spec fn are_views<T: View>(v: Seq<T::V>, s: Seq<T>) -> bool {
    v.len() == s.len() && forall|i: int| 0 <= i < s.len() ==> v[i] == (#[trigger] s[i])@
}

/// An optional view is that of an optional value.
pub open spec fn is_view<T: View>(v: Option<T::V>, o: Option<T>) -> bool {
    match (v, o) {
        (Some(x), Some(y)) => x == y@,
        (None, None) => true,
        _ => false,
    }
}

/// The view of an expression is an expression of the same sort, with the views of its parts.
pub proof fn law_expressions_are_viewed_by_their_parts(e: SqlExpr)
    ensures
        match (e, e@) {
            (SqlExpr::Identifier(a), ExprView::Identifier(b)) => b.value == a.value@
                && b.quote_style == a.quote_style,
            (SqlExpr::CompoundIdentifier(a), ExprView::CompoundIdentifier(b)) => are_views(b, a@),
            (SqlExpr::IsNull(a), ExprView::IsNull(b)) => *b == a@,
            (SqlExpr::IsNotNull(a), ExprView::IsNotNull(b)) => *b == a@,
            (
                SqlExpr::Like { negated, expr, pattern, escape_char },
                ExprView::Like { negated: n, expr: x, pattern: p, escape_char: c },
            ) => n == negated && *x == expr@ && *p == pattern@ && c == escape_char,
            (
                SqlExpr::ILike { negated, expr, pattern, escape_char },
                ExprView::ILike { negated: n, expr: x, pattern: p, escape_char: c },
            ) => n == negated && *x == expr@ && *p == pattern@ && c == escape_char,
            (
                SqlExpr::BinaryOp { left, op, right },
                ExprView::BinaryOp { left: x, op: o, right: y },
            ) => *x == left@ && o == op && *y == right@,
            (SqlExpr::UnaryOp { op, expr }, ExprView::UnaryOp { op: o, expr: x }) => o == op && *x
                == expr@,
            (SqlExpr::Nested(a), ExprView::Nested(b)) => *b == a@,
            (SqlExpr::Value(a), ExprView::Value(b)) => match (a, b) {
                (SqlValue::Number(text, long), ValueView::Number(t, l)) => t == text@ && l == long,
                (SqlValue::SingleQuotedString(text), ValueView::SingleQuotedString(t)) => t
                    == text@,
                (SqlValue::Boolean(x), ValueView::Boolean(y)) => x == y,
                (
                    SqlValue::Interval { value, leading_field },
                    ValueView::Interval { value: v, leading_field: f },
                ) => *v == value@ && f == leading_field,
                (SqlValue::Null, ValueView::Null) => true,
                _ => false,
            },
            (
                SqlExpr::TypedString { data_type, value },
                ExprView::TypedString { data_type: t, value: v },
            ) => t == data_type && v == value@,
            (SqlExpr::Function(a), ExprView::Function(b)) => b == a@,
            _ => false,
        },
{
    if let SqlExpr::Function(f) = e {
        lemma_function_view(f);
    }
}

/// The view of a query has every clause, with the views of its parts.
pub proof fn law_queries_are_viewed_by_their_clauses(
    query: SqlQuery,
    with: With,
    cte: Cte,
    select: SelectQuery,
    table: TableWithJoins,
)
    ensures
        is_view(query@.with, query.with) && query@.query == query.query@,
        with@.recursive == with.recursive && are_views(with@.cte_tables, with.cte_tables@),
        cte@.alias == cte.alias@ && cte@.query == cte.query@,
        are_views(select@.order_by, select.order_by@),
        is_view(select@.limit, select.limit) && is_view(select@.offset, select.offset),
        ({
            let (body, view) = (select.body, select@.body);
            &&& view.distinct == body.distinct
            &&& is_view(view.top, body.top)
            &&& are_views(view.projection, body.projection@)
            &&& are_views(view.from, body.from@)
            &&& is_view(view.selection, body.selection)
            &&& are_views(view.group_by, body.group_by@)
            &&& is_view(view.having, body.having)
        }),
        table@.relation == table.relation@ && are_views(table@.joins, table.joins@),
{
}

/// The view of a part of a clause is a part of the same sort, with the views of its parts.
pub proof fn law_clauses_are_viewed_by_their_parts(
    f: Function,
    order: OrderByExpr,
    window: WindowSpec,
    item: SelectItem,
    table: TableFactor,
    join: Join,
    top: Top,
)
    ensures
        are_views(f@.name, f.name@) && are_views(f@.args, f.args@),
        f@.distinct == f.distinct && f@.special == f.special,
        order@.expr == order.expr@ && order@.asc == order.asc && order@.nulls_first
            == order.nulls_first,
        are_views(window@.partition_by, window.partition_by@),
        are_views(window@.order_by, window.order_by@),
        window@.window_frame == window.window_frame,
        match (item, item@) {
            (SelectItem::UnnamedExpr(e), SelectItemView::UnnamedExpr(x)) => x == e@,
            (
                SelectItem::ExprWithAlias { expr, alias },
                SelectItemView::ExprWithAlias { expr: x, alias: a },
            ) => x == expr@ && a == alias@,
            _ => false,
        },
        are_views(table@.name, table.name@) && is_view(table@.alias, table.alias),
        join@.relation == join.relation@,
        match (join.join_operator, join@.join_operator) {
            (JoinOperator::Inner(c), JoinOperatorView::Inner(v)) => constraint_is_viewed(c, v),
            (JoinOperator::LeftOuter(c), JoinOperatorView::LeftOuter(v)) => constraint_is_viewed(
                c,
                v,
            ),
            (JoinOperator::RightOuter(c), JoinOperatorView::RightOuter(v)) => constraint_is_viewed(
                c,
                v,
            ),
            (JoinOperator::FullOuter(c), JoinOperatorView::FullOuter(v)) => constraint_is_viewed(
                c,
                v,
            ),
            _ => false,
        },
        top@.with_ties == top.with_ties && top@.percent == top.percent && is_view(
            top@.quantity,
            top.quantity,
        ),
{
}

/// The view of the condition of a join.
pub open spec fn constraint_is_viewed(c: JoinConstraint, v: JoinConstraintView) -> bool {
    match (c, v) {
        (JoinConstraint::On(e), JoinConstraintView::On(x)) => x == e@,
        (JoinConstraint::Using(idents), JoinConstraintView::Using(s)) => are_views(s, idents@),
        _ => false,
    }
}

} // verus!
