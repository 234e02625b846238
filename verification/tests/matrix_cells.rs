use oslab::cells::{byte_order_from_probe, decode_cells, encode_cells, host_byte_order, matrix_byte_len, row_byte_range, ByteOrder};
use oslab::matrix::{
    assemble_rows, checked_multiply_row_by_col, checked_result_row, checked_worker_row, compute_result_row,
    multiply_row_by_col, transpose, worker_row, zero_matrix, MATRIX_SIZE,
};

fn a() -> Vec<Vec<i32>> {
    vec![vec![1, 2, 3], vec![4, 5, 6], vec![7, 8, 9]]
}

fn b() -> Vec<Vec<i32>> {
    vec![vec![9, 8, 7], vec![6, 5, 4], vec![3, 2, 1]]
}

fn expected_product() -> Vec<Vec<i32>> {
    vec![vec![30, 24, 18], vec![84, 69, 54], vec![138, 114, 90]]
}

#[test]
fn dot_product_of_row_and_column() {
    assert_eq!(multiply_row_by_col(&[1, 2, 3], &[9, 6, 3]), 30);
    assert_eq!(multiply_row_by_col(&[1, 2, 3], &[4, 5]), 14);
    assert_eq!(multiply_row_by_col(&[], &[4, 5]), 0);
    assert_eq!(multiply_row_by_col(&[-2, 3], &[5, -7]), -31);
}

#[test]
fn dot_product_overflow_is_reported() {
    assert_eq!(checked_multiply_row_by_col(&[i32::MAX, 1], &[1, 1]), None);
    assert_eq!(checked_multiply_row_by_col(&[65536], &[65536]), None);
    assert_eq!(checked_multiply_row_by_col(&[i32::MAX, -1], &[1, 1]), Some(i32::MAX - 1));
    assert_eq!(checked_multiply_row_by_col(&[i32::MIN], &[1]), Some(i32::MIN));
}

#[test]
fn transpose_turns_columns_into_rows() {
    assert_eq!(transpose(&b(), MATRIX_SIZE), vec![vec![9, 6, 3], vec![8, 5, 2], vec![7, 4, 1]]);
    assert_eq!(transpose(&vec![vec![1, 2, 3], vec![4, 5, 6]], 2), vec![vec![1, 4], vec![2, 5]]);
    assert_eq!(transpose(&b(), 0), Vec::<Vec<i32>>::new());
}

#[test]
fn rows_in_any_order_assemble_the_product() {
    let cols = transpose(&b(), MATRIX_SIZE);
    let rows: Vec<Vec<i32>> = (0..MATRIX_SIZE).map(|i| compute_result_row(&a()[i], &cols, MATRIX_SIZE)).collect();
    let orders = [[0usize, 1, 2], [2, 0, 1], [1, 2, 0], [2, 1, 0]];
    for order in orders {
        let received: Vec<(usize, Vec<i32>)> = order.iter().map(|&i| (i, rows[i].clone())).collect();
        assert_eq!(assemble_rows(&received, MATRIX_SIZE), expected_product());
    }
}

#[test]
fn missing_rows_stay_zero_and_later_rows_win() {
    let received = vec![(1usize, vec![1, 1, 1]), (1usize, vec![2, 2, 2])];
    assert_eq!(assemble_rows(&received, 3), vec![vec![0, 0, 0], vec![2, 2, 2], vec![0, 0, 0]]);
    assert_eq!(zero_matrix(2), vec![vec![0, 0], vec![0, 0]]);
}

#[test]
fn result_row_checks() {
    let cols = transpose(&b(), MATRIX_SIZE);
    assert_eq!(checked_result_row(&vec![1, 2, 3], &cols, 3), Some(vec![30, 24, 18]));
    assert_eq!(checked_result_row(&vec![1, 2, 3], &cols, 4), None);
    assert_eq!(checked_result_row(&vec![i32::MAX, 2, 3], &cols, 3), None);
}

#[test]
fn worker_row_of_flattened_matrices() {
    let fa = vec![1, 2, 3, 4];
    let fb = vec![5, 6, 7, 8];
    assert_eq!(worker_row(&fa, &fb, 0, 2), vec![19, 22]);
    assert_eq!(worker_row(&fa, &fb, 1, 2), vec![43, 50]);
    let flat_a: Vec<i32> = a().concat();
    let flat_b: Vec<i32> = b().concat();
    for row in 0..3 {
        assert_eq!(worker_row(&flat_a, &flat_b, row, 3), expected_product()[row]);
    }
}

#[test]
fn worker_row_checks() {
    assert_eq!(checked_worker_row(&vec![1, 2], &vec![5, 6, 7, 8], 1, 2), None);
    assert_eq!(checked_worker_row(&vec![1, 2, 3, 4], &vec![5, 6, 7], 0, 2), None);
    assert_eq!(checked_worker_row(&vec![i32::MAX, 1], &vec![2, 0, 0, 0], 0, 2), None);
    assert_eq!(checked_worker_row(&vec![], &vec![], 5, 0), Some(vec![]));
    assert_eq!(checked_worker_row(&vec![1, 2, 3, 4], &vec![5, 6, 7, 8], 0, 2), Some(vec![19, 22]));
}

#[test]
fn cells_match_native_bytes() {
    let order = host_byte_order();
    let expected = if 1u16.to_ne_bytes()[0] == 1 { ByteOrder::Little } else { ByteOrder::Big };
    assert_eq!(order, expected);
    let vals = vec![30, -1, i32::MIN, 0x01020304];
    let mut native = Vec::new();
    for v in &vals {
        native.extend_from_slice(&v.to_ne_bytes());
    }
    assert_eq!(encode_cells(&vals, order), native);
    assert_eq!(decode_cells(&native, order), vals);
}

#[test]
fn byte_order_from_native_bytes() {
    assert_eq!(byte_order_from_probe([1, 0]), ByteOrder::Little);
    assert_eq!(byte_order_from_probe([0, 1]), ByteOrder::Big);
    assert_eq!(byte_order_from_probe(1u16.to_ne_bytes()), host_byte_order());
}

#[test]
fn cells_in_both_orders() {
    assert_eq!(encode_cells(&vec![0x01020304], ByteOrder::Little), vec![4, 3, 2, 1]);
    assert_eq!(encode_cells(&vec![0x01020304], ByteOrder::Big), vec![1, 2, 3, 4]);
    assert_eq!(encode_cells(&vec![-2], ByteOrder::Big), vec![0xff, 0xff, 0xff, 0xfe]);
    assert_eq!(decode_cells(&[4, 3, 2, 1, 9, 9], ByteOrder::Little), vec![0x01020304]);
    assert_eq!(decode_cells(&[0xff, 0xff, 0xff, 0xfe], ByteOrder::Big), vec![-2]);
    for order in [ByteOrder::Little, ByteOrder::Big] {
        let vals = vec![i32::MAX, i32::MIN, 0, 7, -7];
        assert_eq!(decode_cells(&encode_cells(&vals, order), order), vals);
    }
}

#[test]
fn row_offsets_in_shared_layout() {
    assert_eq!(row_byte_range(0, 3), (0, 12));
    assert_eq!(row_byte_range(2, 3), (24, 36));
    assert_eq!(matrix_byte_len(MATRIX_SIZE), 36);
    let mut covered = 0;
    for row in 0..MATRIX_SIZE {
        let (start, end) = row_byte_range(row, MATRIX_SIZE);
        assert_eq!(start, covered);
        covered = end;
    }
    assert_eq!(covered, matrix_byte_len(MATRIX_SIZE));
}

#[test]
fn bytes_read_and_written_back_are_unchanged() {
    let bytes: Vec<u8> = (0u8..16).map(|b| b.wrapping_mul(37)).collect();
    for order in [ByteOrder::Little, ByteOrder::Big] {
        assert_eq!(encode_cells(&decode_cells(&bytes, order), order), bytes);
    }
}

#[test]
fn dot_product_unchanged_by_shared_reordering() {
    let row = [1, -2, 3, 4];
    let col = [5, 6, -7, 8];
    let perm = [2usize, 0, 3, 1];
    let r2: Vec<i32> = perm.iter().map(|&k| row[k]).collect();
    let c2: Vec<i32> = perm.iter().map(|&k| col[k]).collect();
    assert_eq!(multiply_row_by_col(&r2, &c2), multiply_row_by_col(&row, &col));
    assert_eq!(multiply_row_by_col(&row, &col), 4);
}
