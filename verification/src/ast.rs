//! The PRQL tree, as it stands after name resolution.

use std::rc::Rc;

use vstd::prelude::*;

verus! {

/// A literal.
#[derive(Debug, PartialEq)]
pub enum Literal {
    Null,
    Integer(i64),
    /// A floating point number, as its decimal text.
    Float(String),
    Boolean(bool),
    String(String),
    Date(String),
    Time(String),
    Timestamp(String),
}

/// A binary operator.
#[derive(Debug, Clone, Copy, PartialEq, Eq, Structural)]
pub enum BinOp {
    Mul,
    Div,
    Mod,
    Add,
    Sub,
    Eq,
    Ne,
    Gt,
    Lt,
    Gte,
    Lte,
    And,
    Or,
    Coalesce,
}

/// A unary operator.
#[derive(Debug, Clone, Copy, PartialEq, Eq, Structural)]
pub enum UnOp {
    Neg,
    Not,
}

/// A range; a missing bound leaves that side open.
#[derive(Debug, PartialEq)]
pub struct Range<T = Box<Expr>> {
    pub start: Option<T>,
    pub end: Option<T>,
}

/// One piece of an interpolated string.
#[derive(Debug, PartialEq)]
pub enum InterpolateItem {
    String(String),
    Expr(Box<Expr>),
}

/// A span of time: `n` units.
#[derive(Debug, PartialEq)]
pub struct Interval {
    pub n: i64,
    pub unit: String,
}

/// A call of a function that was left unresolved.
#[derive(Debug, PartialEq)]
pub struct FuncCall {
    pub name: Box<Expr>,
    pub args: Vec<Expr>,
}

/// What the bounds of a window frame count.
#[derive(Debug, Clone, Copy, PartialEq, Eq, Structural)]
pub enum WindowKind {
    Rows,
    Range,
}

/// The order of one sort column.
#[derive(Debug, Clone, Copy, PartialEq, Eq, Structural)]
pub enum SortDirection {
    Asc,
    Desc,
}

/// A column to sort by.
#[derive(Debug, PartialEq)]
pub struct ColumnSort<T = Expr> {
    pub direction: SortDirection,
    pub column: T,
}

/// An expression evaluated over a window of rows.
#[derive(Debug, PartialEq)]
pub struct Windowed {
    pub expr: Box<Expr>,
    pub group: Vec<Expr>,
    pub sort: Vec<ColumnSort>,
    pub window: (WindowKind, Range),
}

/// What an expression is.
#[allow(inconsistent_fields)]
#[derive(Debug, PartialEq)]
pub enum ExprKind {
    Empty,
    Ident(String),
    Literal(Literal),
    List(Vec<Expr>),
    Range(Range),
    Binary { left: Box<Expr>, op: BinOp, right: Box<Expr> },
    Unary { op: UnOp, expr: Box<Expr> },
    FuncCall(FuncCall),
    Windowed(Windowed),
    SString(Vec<InterpolateItem>),
    FString(Vec<InterpolateItem>),
    Interval(Interval),
}

/// An expression, with the name it is given where it is a column.
#[derive(Debug, PartialEq)]
pub struct Expr {
    pub kind: ExprKind,
    pub alias: Option<String>,
}

/// A column of a frame: all columns of a table, or one declaration.
#[derive(Debug, PartialEq)]
pub enum FrameColumn {
    All(usize),
    Unnamed(usize),
    Named(String, usize),
}

/// The columns that a transform leaves, by their declarations, and their order.
#[derive(Debug, PartialEq)]
pub struct Frame {
    pub columns: Vec<FrameColumn>,
    pub sort: Vec<ColumnSort<usize>>,
}

/// The type of a table reference. Frames are shared, not copied.
#[derive(Debug, PartialEq)]
pub enum Ty {
    Infer,
    Table(Rc<Frame>),
}

/// A reference to a table, by its name and its declaration.
#[derive(Debug, PartialEq)]
pub struct TableRef {
    pub name: String,
    pub alias: Option<String>,
    pub declared_at: Option<usize>,
    pub ty: Option<Ty>,
}

/// Which rows without a partner a join keeps.
#[derive(Debug, Clone, Copy, PartialEq, Eq, Structural)]
pub enum JoinSide {
    Inner,
    Left,
    Right,
    Full,
}

/// The condition of a join.
#[derive(Debug, PartialEq)]
pub enum JoinFilter {
    On(Vec<Expr>),
    Using(Vec<Expr>),
}

/// What a transform does.
#[derive(Debug, PartialEq)]
pub enum TransformKind {
    From(TableRef),
    Select(Vec<Expr>),
    Filter(Box<Expr>),
    Derive(Vec<Expr>),
    Aggregate { assigns: Vec<Expr>, by: Vec<Expr> },
    Sort(Vec<ColumnSort>),
    Take { range: Range, by: Vec<Expr>, sort: Vec<ColumnSort> },
    Join { side: JoinSide, with: TableRef, filter: JoinFilter },
    Group { by: Vec<Expr>, pipeline: Vec<Transform> },
    Window { kind: WindowKind, range: Range, pipeline: Vec<Transform> },
    Unique,
}

/// One step of a pipeline.
#[derive(Debug, PartialEq)]
pub struct Transform {
    pub kind: TransformKind,
    /// The transform uses the result of a window or of an aggregation.
    pub is_complex: bool,
    /// The frame that the transform leaves.
    pub ty: Rc<Frame>,
    /// Where the transform stands in the source.
    pub span: Option<(usize, usize)>,
}

/// A named table and the pipeline that computes it.
#[derive(Debug, PartialEq)]
pub struct Table {
    pub id: Option<usize>,
    pub name: String,
    pub pipeline: Vec<Transform>,
}

/// A dialect of SQL.
#[derive(Debug, Clone, Copy, PartialEq, Eq, Structural)]
pub enum Dialect {
    Ansi,
    BigQuery,
    ClickHouse,
    Generic,
    Hive,
    MsSql,
    MySql,
    PostgreSql,
    SQLite,
    Snowflake,
}

/// The header of a query.
#[derive(Debug, PartialEq)]
pub struct QueryDef {
    pub dialect: Dialect,
}

/// A resolved query.
#[derive(Debug, PartialEq)]
pub struct Query {
    pub def: QueryDef,
    pub main_pipeline: Vec<Transform>,
    pub tables: Vec<Table>,
}

/// A quotation mark that can stand around an identifier.
#[derive(Debug, Clone, Copy, PartialEq, Eq, Structural)]
pub enum Quote {
    Single,
    Double,
    Backtick,
    Bracket,
}

/// What the translation asks of a dialect.
#[derive(Debug, Clone, Copy, PartialEq, Eq, Structural)]
pub struct DialectHandler {
    pub dialect: Dialect,
    /// The mark that quotes an identifier.
    pub ident_quote: Quote,
    /// Limits are written `TOP (n)` rather than `LIMIT n`.
    pub use_top: bool,
}

/// The columns and the order of a table, as expressions.
#[derive(Debug, PartialEq)]
pub struct MaterializedFrame {
    pub columns: Vec<Expr>,
    pub sort: Vec<ColumnSort>,
}

/// Something that was given an identifier of its own.
#[derive(Debug, PartialEq)]
pub enum Declaration {
    Expression(Box<Expr>),
    ExternRef { table: Option<usize>, variable: String },
    Table(String),
}

/// The declarations that name resolution made. An identifier is a place in the list.
#[derive(Debug, PartialEq)]
pub struct Context {
    pub declarations: Vec<Declaration>,
}

/// The declarations, as they grow during translation.
#[derive(Debug, PartialEq)]
pub struct MaterializationContext {
    pub declarations: Vec<Declaration>,
}

impl Quote {
    /// The opening mark.
    pub open spec fn mark(self) -> char {
        match self {
            Quote::Single => '\'',
            Quote::Double => '"',
            Quote::Backtick => '`',
            Quote::Bracket => '[',
        }
    }

    /// The opening mark.
    pub fn as_char(self) -> (c: char)
        ensures
            c == self.mark(),
    {
        match self {
            Quote::Single => '\'',
            Quote::Double => '"',
            Quote::Backtick => '`',
            Quote::Bracket => '[',
        }
    }
}

impl Dialect {
    /// What the translation asks of this dialect: MySQL and BigQuery quote with backticks,
    /// and SQL Server limits with `TOP`.
    pub open spec fn handled(self) -> DialectHandler {
        DialectHandler {
            dialect: self,
            ident_quote: if self == Dialect::MySql || self == Dialect::BigQuery {
                Quote::Backtick
            } else {
                Quote::Double
            },
            use_top: self == Dialect::MsSql,
        }
    }

    /// What the translation asks of this dialect.
    pub fn handler(self) -> (h: DialectHandler)
        ensures
            h == self.handled(),
    {
        let ident_quote = match self {
            Dialect::MySql => Quote::Backtick,
            Dialect::BigQuery => Quote::Backtick,
            _ => Quote::Double,
        };
        let use_top = match self {
            Dialect::MsSql => true,
            _ => false,
        };
        DialectHandler { dialect: self, ident_quote, use_top }
    }
}

impl Clone for Ty {
    fn clone(&self) -> (r: Self)
        ensures
            r == *self,
    {
        match self {
            Ty::Infer => Ty::Infer,
            Ty::Table(frame) => Ty::Table(frame.clone()),
        }
    }
}

impl Clone for TableRef {
    fn clone(&self) -> (r: Self)
        ensures
            r == *self,
    {
        TableRef {
            name: self.name.clone(),
            alias: match &self.alias {
                Some(alias) => Some(alias.clone()),
                None => None,
            },
            declared_at: self.declared_at,
            ty: match &self.ty {
                Some(ty) => Some(ty.clone()),
                None => None,
            },
        }
    }
}

/// The expression of a kind, without a name of its own.
pub open spec fn bare(kind: ExprKind) -> Expr {
    Expr { kind, alias: None }
}

impl From<ExprKind> for Expr {
    fn from(kind: ExprKind) -> (r: Expr) {
        Expr { kind, alias: None }
    }
}

impl vstd::std_specs::convert::FromSpecImpl<ExprKind> for Expr {
    open spec fn obeys_from_spec() -> bool {
        true
    }

    open spec fn from_spec(kind: ExprKind) -> Expr {
        bare(kind)
    }
}

impl ExprKind {
    /// The null literal.
    pub open spec fn null(self) -> bool {
        self == ExprKind::Literal(Literal::Null)
    }

    /// Whether this is the null literal.
    pub fn is_null(&self) -> (b: bool)
        ensures
            b == self.null(),
    {
        match self {
            ExprKind::Literal(Literal::Null) => true,
            _ => false,
        }
    }
}

/// The expression that an optional bound is written as.
pub open spec fn bound_expr(bound: Option<i64>) -> Option<Box<Expr>> {
    match bound {
        Some(n) => Some(Box::new(bare(ExprKind::Literal(Literal::Integer(n))))),
        None => None,
    }
}

fn int_bound(bound: Option<i64>) -> (r: Option<Box<Expr>>)
    ensures
        r == bound_expr(bound),
{
    match bound {
        Some(n) => Some(Box::new(Expr::from(ExprKind::Literal(Literal::Integer(n))))),
        None => None,
    }
}

impl Range {
    /// The range that is open on both sides.
    pub fn unbounded() -> (r: Range)
        ensures
            r.start is None,
            r.end is None,
    {
        Range { start: None, end: None }
    }

    /// The range between two integer literals.
    pub fn from_ints(start: Option<i64>, end: Option<i64>) -> (r: Range)
        ensures
            r.start == bound_expr(start),
            r.end == bound_expr(end),
    {
        Range { start: int_bound(start), end: int_bound(end) }
    }
}

impl Default for MaterializationContext {
    fn default() -> (r: Self)
        ensures
            r.declarations@.len() == 0,
    {
        MaterializationContext { declarations: Vec::new() }
    }
}

impl From<Context> for MaterializationContext {
    fn from(context: Context) -> (r: MaterializationContext) {
        MaterializationContext { declarations: context.declarations }
    }
}

impl vstd::std_specs::convert::FromSpecImpl<Context> for MaterializationContext {
    open spec fn obeys_from_spec() -> bool {
        true
    }

    open spec fn from_spec(context: Context) -> MaterializationContext {
        MaterializationContext { declarations: context.declarations }
    }
}

impl MaterializationContext {
    /// Declares a table and returns its identifier.
    pub fn declare_table(&mut self, name: String) -> (id: usize)
        ensures
            id == old(self).declarations@.len(),
            final(self).declarations@ == old(self).declarations@.push(Declaration::Table(name)),
    {
        let id = self.declarations.len();
        self.declarations.push(Declaration::Table(name));
        id
    }
}

/// A dialect is asked what it is: the handler keeps it, MySQL and BigQuery quote with backticks
/// and all others with double quotation marks, and SQL Server alone limits with `TOP`.
pub proof fn law_dialects(dialect: Dialect)
    ensures
        dialect.handled().dialect == dialect,
        dialect.handled().ident_quote.mark() == '`' <==> dialect is MySql || dialect is BigQuery,
        dialect.handled().ident_quote.mark() == '"' <==> !(dialect is MySql || dialect is BigQuery),
        dialect.handled().use_top <==> dialect is MsSql,
{
}

/// No two quotation marks open alike, and the marks of dialects are backticks and double ones.
pub proof fn law_quotation_marks_differ(a: Quote, b: Quote, dialect: Dialect)
    ensures
        a.mark() == b.mark() ==> a == b,
        dialect.handled().ident_quote is Backtick <==> dialect is MySql || dialect is BigQuery,
        dialect.handled().ident_quote is Double <==> !(dialect is MySql || dialect is BigQuery),
{
}

/// The expression of a kind is of that kind and has no name, and an integer is written as the
/// literal of that integer.
pub proof fn law_bare_expressions(kind: ExprKind, n: Option<i64>)
    ensures
        bare(kind).kind == kind,
        bare(kind).alias is None,
        bound_expr(n) is Some <==> n is Some,
        n matches Some(i) ==> bound_expr(n)->0.alias is None && (
        bound_expr(n)->0.kind matches ExprKind::Literal(Literal::Integer(j)) && i == j),
        kind.null() <==> (kind matches ExprKind::Literal(l) && l is Null),
{
}

} // verus!
