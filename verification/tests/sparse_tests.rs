use calamus::linalg::sparse::csr::SparseMatrixCSR;
use calamus::linalg::sparse::sparsity::Sparsity;

#[test]
fn csr_doc_example() {
    let mut a = SparseMatrixCSR::<f64>::new();

    a.push_to_row(0, 1.0);
    a.push_to_row(1, 0.5);
    a.close_row();

    a.push_to_row(1, 1.0);
    a.close_row();

    assert!(a[[0, 1]] == 0.5);
    assert_eq!(a.nrows(), 2);
    assert_eq!(a.ncols(), 2);
}

#[test]
fn sparsity_close_sorts_open_line() {
    let mut s = Sparsity::new();
    let mut values = vec![10, 20, 30];
    let mut tmp = Vec::new();
    s.push_to_major(2);
    s.push_to_major(0);
    s.push_to_major(1);
    s.close_major_and_sort(&mut values, &mut tmp);
    assert_eq!(s.major_range(0), &[0, 1, 2]);
    assert_eq!(values, vec![20, 30, 10]);
    assert_eq!(s.major_len(), 1);
    assert_eq!(s.max_minor(), 2);
}

#[test]
fn csr_close_row_keeps_the_push_order_of_equal_columns() {
    let mut a = SparseMatrixCSR::<i64>::new();
    a.push_to_row(1, 10);
    a.push_to_row(0, 20);
    a.push_to_row(1, 30);
    a.close_row();
    assert_eq!(a.iter_row(0), vec![(0, 20), (1, 10), (1, 30)]);
    // indexing finds the first entry of a column
    assert_eq!(a[[0, 1]], 10);
}

#[test]
fn csr_transpose_lists_rows_by_increasing_index() {
    let mut a = SparseMatrixCSR::<i64>::new();
    a.push_to_row(2, 1);
    a.close_row();
    a.close_row();
    a.push_to_row(0, 2);
    a.push_to_row(2, 3);
    a.close_row();
    let t = a.transpose();
    assert_eq!(t.nrows(), 3);
    assert_eq!(t.iter_row(0), vec![(2, 2)]);
    assert_eq!(t.iter_row(1), vec![]);
    assert_eq!(t.iter_row(2), vec![(0, 1), (2, 3)]);
}

#[test]
fn csr_close_row_orders_distinct_columns_strictly() {
    let mut a = SparseMatrixCSR::<i64>::new();
    a.push_to_row(3, 1);
    a.push_to_row(0, 2);
    a.push_to_row(2, 3);
    a.close_row();
    a.push_to_row(1, 4);
    a.close_row();
    assert_eq!(a.iter_row(0), vec![(0, 2), (2, 3), (3, 1)]);
    assert_eq!(a.iter_row(1), vec![(1, 4)]);
    assert_eq!(a[[0, 3]], 1);
    assert_eq!(a[[0, 0]], 2);
    assert_eq!(a.nrows(), 2);
}
