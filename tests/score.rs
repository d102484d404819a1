use boxrec_tool::score::{extract_scores, scores_from_row, scores_from_rows, Decimal, ScoreError};

fn page_with_rows(rows: &[&str]) -> String {
    let mut s = String::from("<html><body><table>");
    for r in rows {
        s.push_str(&format!("<tr class=\"responseLessDataTable\">{}</tr>", r));
    }
    s.push_str("</table></body></html>");
    s
}

#[test]
fn scores_with_and_without_leading_zero() {
    let row = String::from("<td>points after fight</td><td>.086</td><td>8.6</td>");
    assert_eq!(
        scores_from_row(&row),
        Ok((Decimal { micros: 86_000 }, Decimal { micros: 8_600_000 }))
    );
}

#[test]
fn row_count_mismatch() {
    assert_eq!(scores_from_row(&String::from("after fight 1.5")), Err(ScoreError::ScoreCountMismatch));
    assert_eq!(
        scores_from_row(&String::from("after fight 1.5 2.5 3.5")),
        Err(ScoreError::ScoreCountMismatch)
    );
    // integers are not scores
    assert_eq!(scores_from_row(&String::from("after fight 15 2.5")), Err(ScoreError::ScoreCountMismatch));
}

#[test]
fn row_out_of_range() {
    // digits past the sixth are dropped
    assert_eq!(
        scores_from_row(&String::from("after fight 1.1234567 2.5")),
        Ok((Decimal { micros: 1_123_456 }, Decimal { micros: 2_500_000 }))
    );
    assert_eq!(
        scores_from_row(&String::from("after fight 1000000000.5 2.5")),
        Err(ScoreError::ScoreOutOfRange)
    );
    assert_eq!(
        scores_from_row(&String::from("after fight 999999999.999999 0.000001")),
        Ok((Decimal { micros: 999_999_999_999_999 }, Decimal { micros: 1 }))
    );
}

#[test]
fn numbers_run_left_to_right() {
    // "12.5.6" holds 12.5 and .6
    assert_eq!(
        scores_from_row(&String::from("after fight 12.5.6")),
        Ok((Decimal { micros: 12_500_000 }, Decimal { micros: 600_000 }))
    );
}

#[test]
fn first_after_fight_row_is_used() {
    let rows = vec![
        String::from("before fight 1.0 2.0"),
        String::from("after fight 3.25 4.75"),
        String::from("after fight 5.0 6.0"),
    ];
    assert_eq!(
        scores_from_rows(&rows),
        Ok((Decimal { micros: 3_250_000 }, Decimal { micros: 4_750_000 }))
    );
    assert_eq!(scores_from_rows(&vec![String::from("nothing")]), Err(ScoreError::ScoresNotFound));
    assert_eq!(scores_from_rows(&vec![]), Err(ScoreError::ScoresNotFound));
}

#[test]
fn scores_from_a_page() {
    let page = page_with_rows(&[
        "<td>before fight</td><td>7.0</td><td>1.0</td>",
        "<td>after fight</td><td>8.6</td><td>4.2</td>",
    ]);
    assert_eq!(
        extract_scores(&page),
        Ok((Decimal { micros: 8_600_000 }, Decimal { micros: 4_200_000 }))
    );
}

#[test]
fn page_without_score_rows() {
    let page = String::from("<html><body><p>after fight 8.6 4.2</p></body></html>");
    assert_eq!(extract_scores(&page), Err(ScoreError::ScoresNotFound));
}
