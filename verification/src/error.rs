//! Errors, and the outcome of a translation.

use crate::sql::{option_view, views};
use vstd::prelude::*;

verus! {

/// Why a query could not be translated.
#[derive(Debug, PartialEq)]
pub enum Error {
    /// There is no table to translate.
    NoTables,
    /// A table has no transforms.
    NoPipelines,
    /// A table was not materialized.
    FrameNotProvided,
    /// A pipeline joins without having a table to join to.
    JoinWithoutFrom,
    /// The ranges of a pipeline exclude every row.
    RangeEndBeforeStart,
    /// A range that has to be closed lacks a bound.
    RangeRequiresBothBounds,
    /// A bound is not a literal.
    NotALiteral,
    /// A bound is a literal but not an integer.
    NotAnInteger,
    /// A join by common columns names something else than a column.
    NotASinglePartIdent,
    /// An interval has a unit that SQL does not have.
    UnsupportedIntervalUnit(String),
    /// An expression has no counterpart in SQL; it is shown.
    UnsupportedExpr(String),
    /// A pass outside the translation failed.
    Pass(String),
}

/// An [`Error`], with its texts as sequences of characters.
pub enum ErrorView {
    NoTables,
    NoPipelines,
    FrameNotProvided,
    JoinWithoutFrom,
    RangeEndBeforeStart,
    RangeRequiresBothBounds,
    NotALiteral,
    NotAnInteger,
    NotASinglePartIdent,
    UnsupportedIntervalUnit(Seq<char>),
    UnsupportedExpr(Seq<char>),
    Pass(Seq<char>),
}

impl View for Error {
    type V = ErrorView;

    open spec fn view(&self) -> ErrorView {
        match *self {
            Error::NoTables => ErrorView::NoTables,
            Error::NoPipelines => ErrorView::NoPipelines,
            Error::FrameNotProvided => ErrorView::FrameNotProvided,
            Error::JoinWithoutFrom => ErrorView::JoinWithoutFrom,
            Error::RangeEndBeforeStart => ErrorView::RangeEndBeforeStart,
            Error::RangeRequiresBothBounds => ErrorView::RangeRequiresBothBounds,
            Error::NotALiteral => ErrorView::NotALiteral,
            Error::NotAnInteger => ErrorView::NotAnInteger,
            Error::NotASinglePartIdent => ErrorView::NotASinglePartIdent,
            Error::UnsupportedIntervalUnit(unit) => ErrorView::UnsupportedIntervalUnit(unit@),
            Error::UnsupportedExpr(shown) => ErrorView::UnsupportedExpr(shown@),
            Error::Pass(reason) => ErrorView::Pass(reason@),
        }
    }
}

impl ErrorView {
    /// The message of the error.
    pub open spec fn text(self) -> Seq<char> {
        match self {
            ErrorView::NoTables => "No tables?"@,
            ErrorView::NoPipelines => "No pipelines?"@,
            ErrorView::FrameNotProvided => "frame not provided?"@,
            ErrorView::JoinWithoutFrom => "Cannot use `join` without `from`"@,
            ErrorView::RangeEndBeforeStart => "Range end is before its start."@,
            ErrorView::RangeRequiresBothBounds => "range requires both bounds to be used this way"@,
            ErrorView::NotALiteral => "expected a literal"@,
            ErrorView::NotAnInteger => "expected an integer"@,
            ErrorView::NotASinglePartIdent =>
                "join expected An identifier with only one part; no `.`, but found A multipart identifier"@,
            ErrorView::UnsupportedIntervalUnit(unit) => "Unsupported interval unit: "@ + unit,
            ErrorView::UnsupportedExpr(shown) => "Can't convert to sql_ast::Expr; "@ + shown,
            ErrorView::Pass(reason) => reason,
        }
    }
}

impl Error {
    /// The message of the error.
    pub fn message(&self) -> (r: String)
        ensures
            r@ == self@.text(),
    {
        let (start, end) = match self {
            Error::NoTables => ("No tables?", ""),
            Error::NoPipelines => ("No pipelines?", ""),
            Error::FrameNotProvided => ("frame not provided?", ""),
            Error::JoinWithoutFrom => ("Cannot use `join` without `from`", ""),
            Error::RangeEndBeforeStart => ("Range end is before its start.", ""),
            Error::RangeRequiresBothBounds => (
                "range requires both bounds to be used this way",
                "",
            ),
            Error::NotALiteral => ("expected a literal", ""),
            Error::NotAnInteger => ("expected an integer", ""),
            Error::NotASinglePartIdent => (
                "join expected An identifier with only one part; no `.`, but found A multipart identifier",
                "",
            ),
            Error::UnsupportedIntervalUnit(unit) => ("Unsupported interval unit: ", unit.as_str()),
            Error::UnsupportedExpr(shown) => ("Can't convert to sql_ast::Expr; ", shown.as_str()),
            Error::Pass(reason) => ("", reason.as_str()),
        };
        let mut message = start.to_string();
        message.append(end);
        proof {
            reveal_strlit("");
            assert(message@ =~= self@.text());
        }
        message
    }
}

/// What translating a value comes to.
pub enum Outcome<T> {
    Done(T),
    Fail(ErrorView),
    /// The value is outside the domain of the translation: a number would overflow, or an
    /// operator occurs that has to be gone by then.
    Undefined,
}

/// An outcome that is no success, as the outcome of something else.
pub open spec fn carried<T, U>(o: Outcome<T>) -> Outcome<U> {
    match o {
        Outcome::Fail(e) => Outcome::Fail(e),
        _ => Outcome::Undefined,
    }
}

/// A result is the one that an outcome describes.
pub open spec fn agrees<T: View>(r: Result<T, Error>, o: Outcome<T::V>) -> bool {
    match r {
        Ok(v) => o == Outcome::Done(v@),
        Err(e) => o == Outcome::<T::V>::Fail(e@),
    }
}

/// A list is the one that an outcome describes.
pub open spec fn agrees_list<T: View>(r: Result<Vec<T>, Error>, o: Outcome<Seq<T::V>>) -> bool {
    match r {
        Ok(v) => o == Outcome::Done(views(v@)),
        Err(e) => o == Outcome::<Seq<T::V>>::Fail(e@),
    }
}

/// An optional result is the one that an outcome describes.
pub open spec fn agrees_option<T: View>(
    r: Result<Option<T>, Error>,
    o: Outcome<Option<T::V>>,
) -> bool {
    match r {
        Ok(v) => o == Outcome::Done(option_view(v)),
        Err(e) => o == Outcome::<Option<T::V>>::Fail(e@),
    }
}

/// The outcomes of a list, as one outcome: the first that is not a success decides.
pub open spec fn collect<T>(s: Seq<Outcome<T>>) -> Outcome<Seq<T>>
    decreases s.len(),
{
    if s.len() == 0 {
        Outcome::Done(seq![])
    } else {
        match collect(s.drop_last()) {
            Outcome::Done(v) => match s.last() {
                Outcome::Done(x) => Outcome::Done(v.push(x)),
                Outcome::Fail(e) => Outcome::Fail(e),
                Outcome::Undefined => Outcome::Undefined,
            },
            Outcome::Fail(e) => Outcome::Fail(e),
            Outcome::Undefined => Outcome::Undefined,
        }
    }
}

/// Once a prefix does not succeed, the whole list does not, for the same reason.
pub proof fn lemma_collect_stops<T>(s: Seq<Outcome<T>>, n: int)
    requires
        0 <= n <= s.len(),
    ensures
        collect(s.take(n)) is Fail ==> collect(s) == collect(s.take(n)),
        collect(s.take(n)) is Undefined ==> collect(s) is Undefined,
    decreases s.len() - n,
{
    if n == s.len() {
        assert(s.take(n) =~= s);
    } else {
        lemma_collect_step(s, n);
        lemma_collect_stops(s, n + 1);
    }
}

/// One more outcome.
pub proof fn lemma_collect_step<T>(s: Seq<Outcome<T>>, n: int)
    requires
        0 <= n < s.len(),
    ensures
        collect(s.take(n + 1)) == (match collect(s.take(n)) {
            Outcome::Done(v) => match s[n] {
                Outcome::Done(x) => Outcome::Done(v.push(x)),
                Outcome::Fail(e) => Outcome::Fail(e),
                Outcome::Undefined => Outcome::Undefined,
            },
            Outcome::Fail(e) => Outcome::Fail(e),
            Outcome::Undefined => Outcome::Undefined,
        }),
{
    assert(s.take(n + 1).drop_last() =~= s.take(n));
}

/// A list succeeds exactly when each of its members does, with their values in order.
pub proof fn lemma_collect_done<T>(s: Seq<Outcome<T>>)
    ensures
        collect(s) is Done <==> forall|i: int| 0 <= i < s.len() ==> (#[trigger] s[i]) is Done,
        collect(s) is Done ==> collect(s)->Done_0.len() == s.len(),
        collect(s) is Done ==> forall|i: int|
            0 <= i < s.len() ==> (#[trigger] s[i]) == Outcome::Done(collect(s)->Done_0[i]),
    decreases s.len(),
{
    if s.len() > 0 {
        let p = s.drop_last();
        lemma_collect_done(p);
        if collect(s) is Done {
            assert forall|i: int| 0 <= i < s.len() implies (#[trigger] s[i]) == Outcome::Done(
                collect(s)->Done_0[i],
            ) by {
                if i < p.len() {
                    assert(p[i] == s[i]);
                }
            }
        } else if forall|i: int| 0 <= i < s.len() ==> (#[trigger] s[i]) is Done {
            assert forall|i: int| 0 <= i < p.len() implies (#[trigger] p[i]) is Done by {
                assert(s[i] is Done);
            }
            assert(s[s.len() - 1] is Done);
        }
    }
}

/// A list is outside the domain only if one of its members is.
pub proof fn lemma_collect_undefined<T>(s: Seq<Outcome<T>>)
    requires
        forall|i: int| 0 <= i < s.len() ==> (#[trigger] s[i]) !is Undefined,
    ensures
        collect(s) !is Undefined,
    decreases s.len(),
{
    if s.len() > 0 {
        let p = s.drop_last();
        assert forall|i: int| 0 <= i < p.len() implies (#[trigger] p[i]) !is Undefined by {
            assert(s[i] !is Undefined);
        }
        lemma_collect_undefined(p);
        assert(s[s.len() - 1] !is Undefined);
    }
}

/// One outcome speaks for a list of outcomes: it holds all values in order if all are there, and
/// otherwise it is the first that is no success.
pub open spec fn speaks_for<T>(o: Outcome<Seq<T>>, s: Seq<Outcome<T>>) -> bool {
    match o {
        Outcome::Done(v) => v.len() == s.len() && forall|i: int|
            0 <= i < s.len() ==> (#[trigger] s[i]) == Outcome::Done(v[i]),
        Outcome::Fail(e) => exists|i: int|
            0 <= i < s.len() && (#[trigger] s[i]) == Outcome::<T>::Fail(e) && all_done(s.take(i)),
        Outcome::Undefined => exists|i: int|
            0 <= i < s.len() && (#[trigger] s[i]) is Undefined && all_done(s.take(i)),
    }
}

/// Every outcome of a list is a success.
pub open spec fn all_done<T>(s: Seq<Outcome<T>>) -> bool {
    forall|i: int| 0 <= i < s.len() ==> (#[trigger] s[i]) is Done
}

/// A list comes to all of its values in order, or to the first of its members that is no
/// success.
pub proof fn law_first_failure_decides<T>(s: Seq<Outcome<T>>)
    ensures
        speaks_for(collect(s), s),
    decreases s.len(),
{
    lemma_collect_done(s);
    if s.len() > 0 && collect(s) !is Done {
        let p = s.drop_last();
        law_first_failure_decides(p);
        lemma_collect_done(p);
        if collect(p) is Done {
            let i = s.len() - 1;
            assert forall|j: int| 0 <= j < s.take(i).len() implies (#[trigger] s.take(
                i,
            )[j]) is Done by {
                assert(p[j] is Done);
            }
            assert(all_done(s.take(i)));
            assert(s[i] == s.last());
        } else {
            let i = if collect(p) is Fail {
                choose|i: int|
                    0 <= i < p.len() && (#[trigger] p[i]) == Outcome::<T>::Fail(
                        collect(p)->Fail_0,
                    ) && all_done(p.take(i))
            } else {
                choose|i: int|
                    0 <= i < p.len() && (#[trigger] p[i]) is Undefined && all_done(p.take(i))
            };
            assert(p.take(i) =~= s.take(i));
            assert(s[i] == p[i]);
        }
    }
}

/// A message that reports a detail ends with it, and differs from a message with another detail.
pub proof fn law_messages_show_the_detail(detail: Seq<char>)
    ensures
        detail.is_suffix_of(ErrorView::UnsupportedIntervalUnit(detail).text()),
        detail.is_suffix_of(ErrorView::UnsupportedExpr(detail).text()),
        ErrorView::Pass(detail).text() == detail,
        "Unsupported interval unit: "@.is_prefix_of(
            ErrorView::UnsupportedIntervalUnit(detail).text(),
        ),
        ErrorView::UnsupportedIntervalUnit(detail).text().len() == "Unsupported interval unit: "@.len()
            + detail.len(),
        "Can't convert to sql_ast::Expr; "@.is_prefix_of(ErrorView::UnsupportedExpr(detail).text()),
        ErrorView::UnsupportedExpr(detail).text().len() == "Can't convert to sql_ast::Expr; "@.len()
            + detail.len(),
{
    let unit = ErrorView::UnsupportedIntervalUnit(detail).text();
    let expr = ErrorView::UnsupportedExpr(detail).text();
    assert(unit.subrange(unit.len() - detail.len(), unit.len() as int) =~= detail);
    assert(expr.subrange(expr.len() - detail.len(), expr.len() as int) =~= detail);
    assert("Unsupported interval unit: "@ =~= unit.subrange(
        0,
        "Unsupported interval unit: "@.len() as int,
    ));
    assert("Can't convert to sql_ast::Expr; "@ =~= expr.subrange(
        0,
        "Can't convert to sql_ast::Expr; "@.len() as int,
    ));
}

/// A result speaks of one outcome alone: a value of a success with that value, and an error of a
/// failure with that error. No result speaks of what is outside the domain.
pub proof fn law_results_speak_of_one_outcome<T: View>(
    r: Result<T, Error>,
    list: Result<Vec<T>, Error>,
    option: Result<Option<T>, Error>,
    o: Outcome<T::V>,
    l: Outcome<Seq<T::V>>,
    p: Outcome<Option<T::V>>,
)
    ensures
        agrees(r, o) ==> match (r, o) {
            (Ok(v), Outcome::Done(x)) => v@ == x,
            (Err(e), Outcome::Fail(f)) => is_viewed(e, f),
            _ => false,
        },
        agrees_list(list, l) ==> match (list, l) {
            (Ok(v), Outcome::Done(s)) => v@.len() == s.len() && forall|i: int|
                0 <= i < s.len() ==> v@[i]@ == #[trigger] s[i],
            (Err(e), Outcome::Fail(f)) => is_viewed(e, f),
            _ => false,
        },
        agrees_option(option, p) ==> match (option, p) {
            (Ok(Some(v)), Outcome::Done(Some(x))) => v@ == x,
            (Ok(None), Outcome::Done(None)) => true,
            (Err(e), Outcome::Fail(f)) => is_viewed(e, f),
            _ => false,
        },
{
}

/// The view of an error: the same error, with the characters of its detail.
pub open spec fn is_viewed(e: Error, v: ErrorView) -> bool {
    match v {
        ErrorView::NoTables => e is NoTables,
        ErrorView::NoPipelines => e is NoPipelines,
        ErrorView::FrameNotProvided => e is FrameNotProvided,
        ErrorView::JoinWithoutFrom => e is JoinWithoutFrom,
        ErrorView::RangeEndBeforeStart => e is RangeEndBeforeStart,
        ErrorView::RangeRequiresBothBounds => e is RangeRequiresBothBounds,
        ErrorView::NotALiteral => e is NotALiteral,
        ErrorView::NotAnInteger => e is NotAnInteger,
        ErrorView::NotASinglePartIdent => e is NotASinglePartIdent,
        ErrorView::UnsupportedIntervalUnit(s) => e matches Error::UnsupportedIntervalUnit(t) && t@
            == s,
        ErrorView::UnsupportedExpr(s) => e matches Error::UnsupportedExpr(t) && t@ == s,
        ErrorView::Pass(s) => e matches Error::Pass(t) && t@ == s,
    }
}

} // verus!
