use fsm_graph::grid::{floor_sqrt_of, format_label_grid};

fn numbers(n: usize) -> Vec<String> {
    (1..=n).map(|i| i.to_string()).collect()
}

#[test]
fn grid_of_one_label_is_the_label() {
    assert_eq!(format_label_grid(&numbers(1)), "1");
}

#[test]
fn grid_of_four_labels_is_two_by_two() {
    assert_eq!(format_label_grid(&numbers(4)), "1, 2\n3, 4");
}

#[test]
fn grid_of_seven_labels_widens_the_middle_row() {
    assert_eq!(format_label_grid(&numbers(7)), "1, 2\n3, 4, 5\n6, 7");
}

#[test]
fn grid_of_twenty_three_labels() {
    assert_eq!(
        format_label_grid(&numbers(23)),
        "1, 2, 3, 4\n5, 6, 7, 8, 9\n10, 11, 12, 13, 14\n15, 16, 17, 18, 19\n20, 21, 22, 23"
    );
}

#[test]
fn grid_of_no_labels_is_empty() {
    assert_eq!(format_label_grid(&Vec::new()), "");
}

#[test]
fn grid_of_two_labels_is_one_row() {
    assert_eq!(format_label_grid(&numbers(2)), "1, 2");
}

#[test]
fn grid_of_three_labels_puts_the_wide_row_first() {
    assert_eq!(format_label_grid(&numbers(3)), "1, 2\n3");
}

#[test]
fn grid_of_six_labels_has_two_full_rows() {
    assert_eq!(format_label_grid(&numbers(6)), "1, 2, 3\n4, 5, 6");
}

#[test]
fn grid_of_nine_labels_is_a_square() {
    assert_eq!(format_label_grid(&numbers(9)), "1, 2, 3\n4, 5, 6\n7, 8, 9");
}

#[test]
fn grid_keeps_labels_as_they_are() {
    let labels = vec!["Successful".to_string(), "Unsuccessful".to_string()];
    assert_eq!(format_label_grid(&labels), "Successful, Unsuccessful");
}

#[test]
fn grid_holds_every_label_once_for_many_sizes() {
    for n in 1..200usize {
        let text = format_label_grid(&numbers(n));
        let rows: Vec<Vec<&str>> = text.split('\n').map(|row| row.split(", ").collect()).collect();
        let base = floor_sqrt_of(n);
        let flat: Vec<String> = rows.iter().flatten().map(|s| s.to_string()).collect();
        assert_eq!(flat, numbers(n));
        let wide: Vec<usize> =
            (0..rows.len()).filter(|r| rows[*r].len() == base + 1).collect();
        for row in &rows {
            assert!(row.len() == base || row.len() == base + 1);
        }
        for pair in wide.windows(2) {
            assert_eq!(pair[0] + 1, pair[1]);
        }
        if let (Some(first), Some(last)) = (wide.first(), wide.last()) {
            let above = *first;
            let below = rows.len() - 1 - *last;
            assert!(above <= below && below <= above + 1);
        }
    }
}

#[test]
fn floor_sqrt_of_small_numbers() {
    assert_eq!(floor_sqrt_of(0), 0);
    assert_eq!(floor_sqrt_of(1), 1);
    assert_eq!(floor_sqrt_of(3), 1);
    assert_eq!(floor_sqrt_of(4), 2);
    assert_eq!(floor_sqrt_of(8), 2);
    assert_eq!(floor_sqrt_of(9), 3);
    assert_eq!(floor_sqrt_of(23), 4);
    assert_eq!(floor_sqrt_of(1_000_000), 1000);
    assert_eq!(floor_sqrt_of(999_999), 999);
}
