use darjeeling::dataframe::{find_longest, find_shortest, DataFrame, Point};

fn quick_frame() -> DataFrame<'static, i32> {
    DataFrame::new(
        vec![vec![0, 1, 2], vec![3, 4, 5], vec![6, 7, 8]],
        vec!["row1", "row2", "row3"],
        vec!["col1", "col2", "col3"],
    )
}

#[test]
fn dataframe_add_sub() {
    let mut frame: DataFrame<i32> = quick_frame();
    let added = frame.add_row(
        "Label!",
        Point::point_vector(frame.get_cols_len() - 1 as usize, vec![10, 11, 12]),
    );
    assert!(added.is_ok());
    assert_eq!(frame.get_rows_len(), 4);
    assert_eq!(*frame.value_at_labels("Label!", "col1").unwrap(), 10);
    assert_eq!(*frame.value_at_labels("Label!", "col3").unwrap(), 12);
    frame.delete_row("Label!").unwrap();
    assert_eq!(frame.get_rows_len(), 3);
    assert!(frame.value_at_labels("Label!", "col1").is_err());
}

#[test]
fn values_are_stored_by_column() {
    let frame = quick_frame();
    assert_eq!(*frame.value_at_index(0, 1), 3);
    assert_eq!(*frame.value_at_index(2, 0), 2);
    assert_eq!(*frame.value_at_labels("row2", "col3").unwrap(), 7);
    assert_eq!(frame.index_at_labels("row3", "col2"), Ok((2, 1)));
}

#[test]
fn missing_labels_are_errors() {
    let mut frame = quick_frame();
    assert!(frame.index_at_labels("row9", "col1").is_err());
    assert!(frame.index_at_labels("row1", "col9").is_err());
    assert_eq!(frame.delete_row("nope"), Err("Row not found"));
    assert_eq!(frame.delete_column("nope"), Err("Column not found"));
    assert_eq!(frame.get_rows_len(), 3);
    assert_eq!(frame.get_cols_len(), 3);
}

#[test]
fn duplicate_row_label_is_refused() {
    let mut frame = quick_frame();
    let r = frame.add_row("row2", Point::point_vector(0, vec![1, 1, 1]));
    assert!(r.is_err());
    assert_eq!(frame.get_rows_len(), 3);
    assert_eq!(*frame.value_at_index(1, 0), 1);
}

#[test]
fn columns_are_added_and_deleted() {
    let mut frame = quick_frame();
    frame.add_col("col4", Point::point_vector(3, vec![9, 10, 11]));
    assert_eq!(frame.get_cols_len(), 4);
    assert_eq!(*frame.value_at_labels("row3", "col4").unwrap(), 11);
    frame.delete_column("col1").unwrap();
    assert_eq!(frame.get_cols_len(), 3);
    assert_eq!(*frame.value_at_labels("row1", "col2").unwrap(), 3);
}

#[test]
fn label_index_finds_first() {
    let labels = vec!["a", "b", "a"];
    assert_eq!(DataFrame::<i32>::label_index("a", &labels), Ok(0));
    assert_eq!(DataFrame::<i32>::label_index("b", &labels), Ok(1));
    assert!(DataFrame::<i32>::label_index("c", &labels).is_err());
}

#[test]
fn point_vector_numbers_rows() {
    let points = Point::point_vector(4, vec![7, 8]);
    assert_eq!(points.len(), 2);
    assert_eq!((points[1].row, points[1].col, points[1].val), (1, 4, 8));
    let p = Point::new(2, 3, 5);
    assert_eq!((p.row, p.col, p.val), (2, 3, 5));
}

#[test]
fn longest_and_shortest_labels() {
    let labels = vec!["row1", "a", "longer"];
    assert_eq!(find_longest(&labels), 6);
    assert_eq!(find_shortest(&labels), 1);
    assert_eq!(find_longest(&vec!["x"]), 1);
}

#[test]
fn labels_are_read_back() {
    let frame = quick_frame();
    assert_eq!(frame.row_label(2), "row3");
    assert_eq!(frame.col_label(0), "col1");
}
