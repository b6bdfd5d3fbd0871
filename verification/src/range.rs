//! The ranges of `take`.

use crate::ast::{bound_expr, Expr, ExprKind, Literal, Range};
use crate::error::{agrees, carried, Error, ErrorView, Outcome};
use crate::expr::bound_int;
use vstd::prelude::*;

verus! {

impl View for Range<i64> {
    type V = Range<i64>;

    open spec fn view(&self) -> Range<i64> {
        *self
    }
}

/// The integer that an optional bound is written as.
pub open spec fn optional_int(bound: Option<Box<Expr>>) -> Outcome<Option<i64>> {
    match bound {
        Some(b) => match bound_int(*b) {
            Outcome::Done(n) => Outcome::Done(Some(n)),
            other => carried(other),
        },
        None => Outcome::Done(None),
    }
}

/// The range between the integers that the bounds are written as.
pub open spec fn int_range(range: Range) -> Outcome<Range<i64>> {
    match optional_int(range.start) {
        Outcome::Done(start) => match optional_int(range.end) {
            Outcome::Done(end) => Outcome::Done(Range { start, end }),
            other => carried(other),
        },
        other => carried(other),
    }
}

/// The place that comes `n`th when counting from the place `start`. Counting starts at one.
/// It is undefined if the sum of the two, or the place itself, does not fit.
pub open spec fn counted_from(start: i64, n: i64) -> Outcome<i64> {
    if i64::MIN < start + n <= i64::MAX {
        Outcome::Done((start + n - 1) as i64)
    } else {
        Outcome::Undefined
    }
}

/// Where a range starts if it is taken from rows that start at `current`.
pub open spec fn next_start(current: Option<i64>, start: Option<i64>) -> Outcome<Option<i64>> {
    match (current, start) {
        (Some(c), Some(s)) => match counted_from(c, s) {
            Outcome::Done(n) => Outcome::Done(Some(n)),
            other => carried(other),
        },
        (Some(c), None) => Outcome::Done(Some(c)),
        (None, s) => Outcome::Done(s),
    }
}

/// Where a range ends if it is taken from the rows of another range.
pub open spec fn next_end(current: Range<i64>, end: Option<i64>) -> Outcome<Option<i64>> {
    match end {
        None => Outcome::Done(current.end),
        Some(n) => match counted_from(
            if current.start is Some {
                current.start->0
            } else {
                1
            },
            n,
        ) {
            Outcome::Done(e) => Outcome::Done(
                Some(
                    if current.end is Some && current.end->0 < e {
                        current.end->0
                    } else {
                        e
                    },
                ),
            ),
            other => carried(other),
        },
    }
}

/// A range taken from the rows of another.
pub open spec fn narrowed(current: Range<i64>, range: Range<i64>) -> Outcome<Range<i64>> {
    match next_start(current.start, range.start) {
        Outcome::Done(start) => match next_end(current, range.end) {
            Outcome::Done(end) => Outcome::Done(Range { start, end }),
            other => carried(other),
        },
        other => carried(other),
    }
}

/// Ranges, each taken from the rows of those before it, as one range.
pub open spec fn aggregated(ranges: Seq<Range>) -> Outcome<Range<i64>>
    decreases ranges.len(),
{
    if ranges.len() == 0 {
        Outcome::Done(Range { start: None, end: None })
    } else {
        match aggregated(ranges.drop_last()) {
            Outcome::Done(current) => match int_range(ranges.last()) {
                Outcome::Done(range) => narrowed(current, range),
                other => other,
            },
            other => other,
        }
    }
}

/// The range has an end, and it lies before its start.
pub open spec fn ends_before_start(range: Range<i64>) -> bool {
    range.start is Some && range.end is Some && range.end->0 < range.start->0
}

/// The one range that ranges come to, unless it ends before it starts.
pub open spec fn range_of(ranges: Seq<Range>) -> Outcome<Range<i64>> {
    match aggregated(ranges) {
        Outcome::Done(range) => if ends_before_start(range) {
            Outcome::Fail(ErrorView::RangeEndBeforeStart)
        } else {
            Outcome::Done(range)
        },
        other => other,
    }
}

fn int_of_bound(bound: &Option<Box<Expr>>) -> (r: Result<Option<i64>, Error>)
    ensures
        agrees(r, optional_int(*bound)),
{
    match bound {
        Some(b) => match &b.kind {
            ExprKind::Literal(Literal::Integer(n)) => Ok(Some(*n)),
            ExprKind::Literal(_) => Err(Error::NotAnInteger),
            _ => Err(Error::NotALiteral),
        },
        None => Ok(None),
    }
}

impl Range {
    /// The range between the integers that the bounds are written as.
    pub fn into_int(&self) -> (r: Result<Range<i64>, Error>)
        ensures
            agrees(r, int_range(*self)),
    {
        let start = match int_of_bound(&self.start) {
            Ok(n) => n,
            Err(e) => {
                return Err(e);
            },
        };
        let end = match int_of_bound(&self.end) {
            Ok(n) => n,
            Err(e) => {
                return Err(e);
            },
        };
        Ok(Range { start, end })
    }
}

/// Once the first ranges are not aggregated, no longer list is.
proof fn lemma_aggregated_stops(ranges: Seq<Range>, n: int)
    requires
        0 <= n <= ranges.len(),
    ensures
        aggregated(ranges.take(n)) is Fail ==> aggregated(ranges) == aggregated(ranges.take(n)),
        aggregated(ranges.take(n)) is Undefined ==> aggregated(ranges) is Undefined,
    decreases ranges.len() - n,
{
    if n == ranges.len() {
        assert(ranges.take(n) =~= ranges);
    } else {
        assert(ranges.take(n + 1).drop_last() =~= ranges.take(n));
        lemma_aggregated_stops(ranges, n + 1);
    }
}

/// Aggregates ranges into one: each is taken from the rows that those before it leave.
pub fn range_of_ranges(ranges: Vec<&Range>) -> (r: Result<Range<i64>, Error>)
    requires
        range_of(ranges@.unref()) !is Undefined,
    ensures
        agrees(r, range_of(ranges@.unref())),
{
    let ghost all = ranges@.unref();
    let mut current: Range<i64> = Range { start: None, end: None };
    let mut i: usize = 0;
    proof {
        assert(all.take(0) =~= seq![]);
    }
    while i < ranges.len()
        invariant
            i <= ranges@.len(),
            all == ranges@.unref(),
            aggregated(all) !is Undefined,
            aggregated(all.take(i as int)) == Outcome::Done(current),
        decreases ranges.len() - i,
    {
        proof {
            assert(all.take(i + 1).drop_last() =~= all.take(i as int));
            lemma_aggregated_stops(all, i + 1);
        }
        let range = match ranges[i].into_int() {
            Ok(r) => r,
            Err(e) => {
                return Err(e);
            },
        };
        let start = match (current.start, range.start) {
            (Some(c), Some(s)) => Some(s + c - 1),
            (Some(c), None) => Some(c),
            (None, s) => s,
        };
        let first: i64 = match current.start {
            Some(c) => c,
            None => 1,
        };
        let end = match range.end {
            Some(n) => {
                let e: i64 = first + n - 1;
                match current.end {
                    Some(c) => if c < e {
                        Some(c)
                    } else {
                        Some(e)
                    },
                    None => Some(e),
                }
            },
            None => current.end,
        };
        current = Range { start, end };
        i += 1;
    }
    proof {
        assert(all.take(i as int) =~= all);
    }
    if let (Some(s), Some(e)) = (current.start, current.end) {
        if e < s {
            return Err(Error::RangeEndBeforeStart);
        }
    }
    Ok(current)
}

/// How many rows to skip, and how many to return after that, to get the rows of a range. It is
/// undefined if one of the two does not fit.
pub open spec fn skip_and_limit(range: Range<i64>) -> Outcome<(i64, Option<i64>)> {
    let skip = if range.start is Some {
        range.start->0 - 1
    } else {
        0
    };
    if skip < i64::MIN {
        Outcome::Undefined
    } else {
        match range.end {
            Some(end) => if i64::MIN <= end - skip <= i64::MAX {
                Outcome::Done((skip as i64, Some((end - skip) as i64)))
            } else {
                Outcome::Undefined
            },
            None => Outcome::Done((skip as i64, None)),
        }
    }
}

/// How many rows to skip, and how many to return after that, to get the rows of a range.
pub fn skip_and_limit_of(range: &Range<i64>) -> (r: (i64, Option<i64>))
    requires
        skip_and_limit(*range) is Done,
    ensures
        skip_and_limit(*range) == Outcome::Done(r),
{
    let skip: i64 = match range.start {
        Some(s) => s - 1,
        None => 0,
    };
    let limit = match range.end {
        Some(e) => Some(e - skip),
        None => None,
    };
    (skip, limit)
}

// ---------------------------------------------------------------------------
// Laws
// ---------------------------------------------------------------------------

/// The rows that a range takes. Rows are counted from one, and both bounds belong to the range.
pub open spec fn taken<A>(rows: Seq<A>, range: Range<i64>) -> Seq<A> {
    let from = if range.start is Some && range.start->0 > 1 {
        range.start->0 - 1
    } else {
        0
    };
    let to = if range.end is Some && range.end->0 < rows.len() {
        range.end->0 as int
    } else {
        rows.len() as int
    };
    if from < to {
        rows.subrange(from, to)
    } else {
        seq![]
    }
}

/// The rows that are left after one range after the other has been taken.
pub open spec fn taken_in_turn<A>(rows: Seq<A>, ranges: Seq<Range>) -> Seq<A>
    decreases ranges.len(),
{
    if ranges.len() == 0 {
        rows
    } else {
        let before = taken_in_turn(rows, ranges.drop_last());
        taken(before, int_range(ranges.last())->Done_0)
    }
}

/// The range does not start before the first row.
pub open spec fn starts_at_a_row(range: Range) -> bool {
    int_range(range) matches Outcome::Done(r) ==> r.start is Some ==> r.start->0 >= 1
}

/// Taking a range from the rows of another is taking the narrowed range.
proof fn lemma_narrowed<A>(rows: Seq<A>, current: Range<i64>, range: Range<i64>)
    requires
        current.start is Some ==> current.start->0 >= 1,
        range.start is Some ==> range.start->0 >= 1,
        narrowed(current, range) is Done,
    ensures
        taken(taken(rows, current), range) == taken(rows, narrowed(current, range)->Done_0),
{
    assert(taken(taken(rows, current), range) =~= taken(
        rows,
        narrowed(current, range)->Done_0,
    ));
}

/// The aggregated range takes the rows that are left when the ranges are taken in turn. The
/// ranges do not start before the first row.
pub proof fn law_one_range_for_all<A>(rows: Seq<A>, ranges: Seq<Range>)
    requires
        forall|i: int| 0 <= i < ranges.len() ==> starts_at_a_row(#[trigger] ranges[i]),
        aggregated(ranges) is Done,
    ensures
        taken_in_turn(rows, ranges) == taken(rows, aggregated(ranges)->Done_0),
        aggregated(ranges)->Done_0.start matches Some(s) ==> s >= 1,
    decreases ranges.len(),
{
    if ranges.len() == 0 {
        assert(taken(rows, Range { start: None, end: None }) =~= rows);
    } else {
        let before = ranges.drop_last();
        assert forall|i: int| 0 <= i < before.len() implies starts_at_a_row(
            #[trigger] before[i],
        ) by {
            assert(before[i] == ranges[i]);
        }
        law_one_range_for_all(rows, before);
        assert(starts_at_a_row(ranges[ranges.len() - 1]));
        lemma_narrowed(rows, aggregated(before)->Done_0, int_range(ranges.last())->Done_0);
    }
}

/// Ranges that are refused because the end lies before the start leave no row of any table.
pub proof fn law_refused_ranges_are_empty<A>(rows: Seq<A>, ranges: Seq<Range>)
    requires
        forall|i: int| 0 <= i < ranges.len() ==> starts_at_a_row(#[trigger] ranges[i]),
        range_of(ranges) == Outcome::<Range<i64>>::Fail(ErrorView::RangeEndBeforeStart),
    ensures
        taken_in_turn(rows, ranges).len() == 0,
{
    lemma_only_cause(ranges);
    law_one_range_for_all(rows, ranges);
}

/// Aggregation itself never reports that the end lies before the start.
proof fn lemma_only_cause(ranges: Seq<Range>)
    ensures
        aggregated(ranges) != Outcome::<Range<i64>>::Fail(ErrorView::RangeEndBeforeStart),
    decreases ranges.len(),
{
    if ranges.len() > 0 {
        lemma_only_cause(ranges.drop_last());
    }
}

/// The rows that are returned if some are skipped and their number is limited.
pub open spec fn limited<A>(rows: Seq<A>, skip: int, limit: Option<i64>) -> Seq<A> {
    let rest = if skip < rows.len() {
        rows.skip(skip)
    } else {
        seq![]
    };
    if limit is Some && limit->0 < rest.len() {
        rest.take(limit->0 as int)
    } else {
        rest
    }
}

/// Skipping and limiting returns the rows of the range. The range starts at a row, ends no
/// earlier than before the first row, and does not end before it starts.
pub proof fn law_skip_and_limit_take_the_range<A>(rows: Seq<A>, range: Range<i64>)
    requires
        range.start is Some ==> range.start->0 >= 1,
        range.end is Some ==> range.end->0 >= 0,
        !ends_before_start(range),
    ensures
        skip_and_limit(range) matches Outcome::Done((skip, limit)) && skip >= 0 && (limit is Some
            ==> limit->0 >= 0) && limited(rows, skip as int, limit) == taken(rows, range),
{
    let (skip, limit) = skip_and_limit(range)->Done_0;
    assert(limited(rows, skip as int, limit) =~= taken(rows, range));
}

/// A bound is written as an integer literal, or is missing.
pub open spec fn is_written(bound: Option<Box<Expr>>, n: Option<i64>) -> bool {
    match (bound, n) {
        (Some(b), Some(i)) => b.kind == ExprKind::Literal(Literal::Integer(i)),
        (None, None) => true,
        _ => false,
    }
}

/// The complaint about a bound that is not an integer literal.
pub open spec fn bound_complaint(bound: Option<Box<Expr>>) -> Option<ErrorView> {
    match bound {
        Some(b) => if b.kind !is Literal {
            Some(ErrorView::NotALiteral)
        } else if b.kind->Literal_0 !is Integer {
            Some(ErrorView::NotAnInteger)
        } else {
            None
        },
        None => None,
    }
}

/// A range is read as the integers that its bounds are written as. If one is not, the first that
/// is not is complained about.
pub proof fn law_bounds_are_read(range: Range)
    ensures
        int_range(range) matches Outcome::Done(r) ==> is_written(range.start, r.start)
            && is_written(range.end, r.end),
        bound_complaint(range.start) matches Some(e) ==> int_range(range) == Outcome::<
            Range<i64>,
        >::Fail(e),
        bound_complaint(range.start) is None ==> (bound_complaint(range.end) matches Some(e)
            ==> int_range(range) == Outcome::<Range<i64>>::Fail(e)),
        bound_complaint(range.start) is None && bound_complaint(range.end) is None
            ==> int_range(range) is Done,
{
}

/// Writing integers as bounds and reading them gives the integers back.
pub proof fn law_written_bounds_are_read_back(start: Option<i64>, end: Option<i64>)
    ensures
        int_range(Range { start: bound_expr(start), end: bound_expr(end) }) == Outcome::Done(
            Range { start, end },
        ),
{
}

/// A place lies at or after the start of a range.
pub open spec fn is_from(p: int, start: Option<i64>) -> bool {
    start matches Some(s) ==> s <= p
}

/// A place lies at or before the end of a range.
pub open spec fn is_up_to(p: int, end: Option<i64>) -> bool {
    end matches Some(e) ==> p <= e
}

/// Where a place stands among the rows of a range, counted from one at the start of the range.
pub open spec fn counted(p: int, start: Option<i64>) -> int {
    if start is Some {
        p - start->0 + 1
    } else {
        p
    }
}

/// One more range counts its bounds from the start of the rows before it, and cannot reach
/// beyond their end. This holds of all bounds, also of those that are not positive.
pub proof fn law_one_more_range(
    ranges: Seq<Range>,
    range: Range,
    start: Option<i64>,
    end: Option<i64>,
    p: int,
)
    requires
        is_written(range.start, start),
        is_written(range.end, end),
        aggregated(ranges) is Done,
    ensures
        ({
            let before = aggregated(ranges)->Done_0;
            &&& aggregated(ranges.push(range)) !is Fail
            &&& aggregated(ranges.push(range)) matches Outcome::Done(after) ==> {
                &&& after.start is Some <==> before.start is Some || start is Some
                &&& after.end is Some <==> before.end is Some || end is Some
                &&& is_from(p, after.start) <==> if start is Some {
                    is_from(counted(p, before.start), start)
                } else {
                    is_from(p, before.start)
                }
                &&& is_up_to(p, after.end) <==> is_up_to(p, before.end) && is_up_to(
                    counted(p, before.start),
                    end,
                )
            }
            &&& aggregated(ranges.push(range)) is Done <==> {
                &&& before.start is Some && start is Some ==> can_be_counted(
                    before.start->0 + start->0,
                )
                &&& end is Some ==> can_be_counted(
                    end->0 + if before.start is Some {
                        before.start->0
                    } else {
                        1i64
                    },
                )
            }
        }),
{
    assert(ranges.push(range).drop_last() =~= ranges);
    law_bounds_are_read(range);
    let r = int_range(range)->Done_0;
    assert(r.start == start && r.end == end);
}

/// A sum that fits, also with one taken off.
pub open spec fn can_be_counted(sum: int) -> bool {
    -0x8000_0000_0000_0000 < sum < 0x8000_0000_0000_0000
}

/// Without ranges nothing is bounded, a range that cannot be read is refused, and so is every
/// list that starts with a refused one.
pub proof fn law_ranges_are_read_in_order(ranges: Seq<Range>, range: Range)
    ensures
        aggregated(seq![]) == Outcome::Done(Range { start: None::<i64>, end: None }),
        aggregated(ranges) is Fail ==> aggregated(ranges.push(range)) == aggregated(ranges),
        aggregated(ranges) is Done && int_range(range) is Fail ==> aggregated(ranges.push(range))
            == Outcome::<Range<i64>>::Fail(int_range(range)->Fail_0),
{
    assert(ranges.push(range).drop_last() =~= ranges);
}

/// Ranges are refused for ending before they start exactly if they have both bounds and no place
/// lies between them. All others come to the range that they are aggregated to, if they can be.
pub proof fn law_only_empty_ranges_are_refused(ranges: Seq<Range>)
    ensures
        aggregated(ranges) !is Done ==> range_of(ranges) == aggregated(ranges),
        aggregated(ranges) is Done ==> ({
            let r = aggregated(ranges)->Done_0;
            let empty = r.start is Some && r.end is Some && forall|p: int| #[trigger]
                is_from(p, r.start) ==> !is_up_to(p, r.end);
            &&& empty ==> range_of(ranges) == Outcome::<Range<i64>>::Fail(
                ErrorView::RangeEndBeforeStart,
            )
            &&& !empty ==> range_of(ranges) == Outcome::Done(r)
        }),
{
    let r = aggregated(ranges)->Done_0;
    if r.start is Some && r.end is Some {
        if r.start->0 <= r.end->0 {
            assert(is_from(r.start->0 as int, r.start));
            assert(is_up_to(r.start->0 as int, r.end));
        }
    }
}

/// The rows that are skipped are those before the start, and those returned end at the end. This
/// holds of all bounds, also of those that are not positive.
pub proof fn law_skip_and_limit_reach_the_end(range: Range<i64>)
    ensures
        skip_and_limit(range) !is Fail,
        skip_and_limit(range) matches Outcome::Done((skip, limit)) ==> {
            &&& range.start matches Some(s) ==> skip + 1 == s
            &&& range.start is None ==> skip == 0
            &&& limit is Some <==> range.end is Some
            &&& limit is Some ==> skip + limit->0 == range.end->0
        },
        skip_and_limit(range) is Done <==> {
            let skip: int = if range.start is Some {
                range.start->0 - 1
            } else {
                0
            };
            &&& skip >= -0x8000_0000_0000_0000
            &&& range.end is Some ==> -0x8000_0000_0000_0000 <= range.end->0 - skip
                < 0x8000_0000_0000_0000
        },
{
}


} // verus!
