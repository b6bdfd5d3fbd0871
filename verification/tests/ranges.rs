//! The ranges of `take`.

use prql_sql::ast::{Expr, ExprKind, Literal, Range};
use prql_sql::error::Error;
use prql_sql::range::{range_of_ranges, skip_and_limit_of};

fn ints(start: Option<i64>, end: Option<i64>) -> Range<i64> {
    Range { start, end }
}

#[test]
fn test_range_of_ranges() -> Result<(), Error> {
    let range1 = Range::from_ints(Some(1), Some(10));
    let range2 = Range::from_ints(Some(5), Some(6));
    let range3 = Range::from_ints(Some(5), None);
    let range4 = Range::from_ints(None, Some(8));
    let range5 = Range::from_ints(Some(5), Some(5));

    assert!(range_of_ranges(vec![&range1])?.end.is_some());

    assert_eq!(range_of_ranges(vec![&range1])?, ints(Some(1), Some(10)));

    assert_eq!(
        range_of_ranges(vec![&range1, &range1])?,
        ints(Some(1), Some(10))
    );

    assert_eq!(
        range_of_ranges(vec![&range1, &range2])?,
        ints(Some(5), Some(6))
    );

    assert_eq!(
        range_of_ranges(vec![&range2, &range1])?,
        ints(Some(5), Some(6))
    );

    // We can't get 5..6 from 5..6.
    assert!(range_of_ranges(vec![&range2, &range2]).is_err());

    assert_eq!(
        range_of_ranges(vec![&range3, &range3])?,
        ints(Some(9), None)
    );

    assert_eq!(
        range_of_ranges(vec![&range1, &range3])?,
        ints(Some(5), Some(10))
    );

    assert_eq!(
        range_of_ranges(vec![&range2, &range4])?,
        ints(Some(5), Some(6))
    );

    assert_eq!(range_of_ranges(vec![&range4, &range4])?, ints(None, Some(8)));

    assert_eq!(range_of_ranges(vec![&range5])?, ints(Some(5), Some(5)));

    Ok(())
}

#[test]
fn no_ranges_leave_all_rows() {
    assert_eq!(range_of_ranges(vec![]), Ok(ints(None, None)));
}

#[test]
fn range_that_ends_before_it_starts() {
    let range = Range::from_ints(Some(6), Some(5));
    assert_eq!(
        range_of_ranges(vec![&range]),
        Err(Error::RangeEndBeforeStart)
    );
    // Without a start, an end of zero is not refused.
    let none = Range::from_ints(None, Some(0));
    assert_eq!(range_of_ranges(vec![&none]), Ok(ints(None, Some(0))));
}

#[test]
fn bounds_have_to_be_integers() {
    let text = Range {
        start: Some(Box::new(Expr::from(ExprKind::Literal(Literal::String(
            "one".to_string(),
        ))))),
        end: None,
    };
    assert_eq!(text.into_int(), Err(Error::NotAnInteger));
    let column = Range {
        start: None,
        end: Some(Box::new(Expr::from(ExprKind::Ident("n".to_string())))),
    };
    assert_eq!(column.into_int(), Err(Error::NotALiteral));
    let fine = Range::from_ints(Some(1), Some(2));
    assert_eq!(fine.into_int(), Ok(ints(Some(1), Some(2))));
    // The first range that is not of integers decides, before any is found to be empty.
    let empty = Range::from_ints(Some(6), Some(5));
    assert_eq!(
        range_of_ranges(vec![&empty, &text]),
        Err(Error::NotAnInteger)
    );
}

/// The rows between two bounds, counted from one.
fn taken(rows: &[i64], range: &Range<i64>) -> Vec<i64> {
    let mut left = vec![];
    for (i, row) in rows.iter().enumerate() {
        let place = i as i64 + 1;
        if range.start.map_or(true, |s| s <= place) && range.end.map_or(true, |e| place <= e) {
            left.push(*row);
        }
    }
    left
}

#[test]
fn aggregated_range_takes_the_rows_of_all() {
    let rows: Vec<i64> = (100..120).collect();
    let first = Range::from_ints(Some(3), Some(12));
    let second = Range::from_ints(Some(2), Some(8));
    let third = Range::from_ints(None, Some(3));
    let mut in_turn = rows.clone();
    for range in [&first, &second, &third] {
        in_turn = taken(&in_turn, &range.into_int().unwrap());
    }
    let one = range_of_ranges(vec![&first, &second, &third]).unwrap();
    assert_eq!(one, ints(Some(4), Some(6)));
    assert_eq!(taken(&rows, &one), in_turn);
    assert_eq!(in_turn, vec![103, 104, 105]);
}

#[test]
fn skipping_and_limiting() {
    assert_eq!(skip_and_limit_of(&ints(Some(5), Some(6))), (4, Some(2)));
    assert_eq!(skip_and_limit_of(&ints(None, Some(20))), (0, Some(20)));
    assert_eq!(skip_and_limit_of(&ints(Some(9), None)), (8, None));
    assert_eq!(skip_and_limit_of(&ints(None, None)), (0, None));
    assert_eq!(skip_and_limit_of(&ints(Some(1), Some(10))), (0, Some(10)));
}

#[test]
fn refused_ranges_leave_no_rows() {
    let rows: Vec<i64> = (0..100).collect();
    let range = Range::from_ints(Some(5), Some(6));
    assert_eq!(
        range_of_ranges(vec![&range, &range]),
        Err(Error::RangeEndBeforeStart)
    );
    let ints = range.into_int().unwrap();
    assert!(taken(&taken(&rows, &ints), &ints).is_empty());
}

#[test]
fn skipping_and_limiting_returns_the_range() {
    let rows: Vec<i64> = (0..8).collect();
    for start in [None, Some(1), Some(4), Some(20)] {
        for end in [None, Some(0), Some(4), Some(7), Some(20)] {
            if start.is_some() && end.is_some() && end < start {
                continue;
            }
            let range = ints(start, end);
            let (skip, limit) = skip_and_limit_of(&range);
            let left: Vec<i64> = rows
                .iter()
                .skip(skip as usize)
                .take(limit.map_or(rows.len(), |l| l as usize))
                .cloned()
                .collect();
            assert_eq!(left, taken(&rows, &range));
        }
    }
}
