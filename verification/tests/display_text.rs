use aicaramba::Mat;

#[test]
fn display_of_two_by_two_gives_two_tabbed_lines() {
    let m = Mat::new(2, 2, vec![1i64, 2, 3, 4]).unwrap();
    let text = m.to_tsv();
    let lines: Vec<&str> = text.lines().collect();
    assert_eq!(lines, vec!["1\t2", "3\t4"]);
    assert_eq!(text, "1\t2\n3\t4\n");
}

#[test]
fn rendering_handles_negatives_and_wide_numbers() {
    let m = Mat::new(1, 3, vec![-5i64, 0, 1234567890]).unwrap();
    assert_eq!(m.to_tsv(), "-5\t0\t1234567890\n");
    let edge = Mat::new(1, 2, vec![i64::MIN, i64::MAX]).unwrap();
    assert_eq!(
        edge.to_tsv(),
        format!("{}\t{}\n", i64::MIN, i64::MAX)
    );
}

#[test]
fn rendering_an_empty_matrix_is_empty() {
    let m = Mat::<i64>::new(0, 0, vec![]).unwrap();
    assert_eq!(m.to_tsv(), "");
}
