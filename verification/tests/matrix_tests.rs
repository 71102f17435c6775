use markov_grid::matrix::Matrix;

#[test]
fn correct_size() {
    let world: Matrix<u64> = Matrix::new(666, 4, 3);

    assert_eq!(4, world.width());
    assert_eq!(3, world.height());
}

#[test]
fn return_none_if_accessed_out_of_range() {
    let world: Matrix<u64> = Matrix::new(666, 4, 3);

    assert_eq!(None, world.read_state(5, 3));
    assert_eq!(None, world.read_state(4, 4));
    assert_eq!(None, world.read_state(4, 4));
}

#[test]
fn return_false_if_inserted_out_of_range() {
    let mut world: Matrix<u64> = Matrix::new(666, 4, 3);

    assert_eq!(false, world.set_state(777, 5, 3));
    assert_eq!(false, world.set_state(777, 4, 4));
}

#[test]
fn all_fields_are_initialized_corectly() {
    let world: Matrix<u64> = Matrix::new(666, 4, 3);
    let mut number_of_calls = 0;

    for row in world.matrix().iter() {
        for elem in row.iter() {
            number_of_calls += 1;
            assert_eq!(elem, &666);
        }
    }

    assert_eq!(4 * 3, number_of_calls);
}

#[test]
fn write_then_read_returns_the_written_value() {
    let mut world: Matrix<u64> = Matrix::new(666, 4, 3);

    for y in 0..3 {
        for x in 0..4 {
            let value = (10 * y + x) as u64;
            assert_eq!(true, world.set_state(value, x, y));
            assert_eq!(Some(&value), world.read_state(x, y));
        }
    }
    for y in 0..3 {
        for x in 0..4 {
            assert_eq!(Some(&((10 * y + x) as u64)), world.read_state(x, y));
        }
    }
}

#[test]
fn write_addresses_column_then_row() {
    let mut world: Matrix<u64> = Matrix::new(0, 4, 3);

    assert_eq!(true, world.set_state(7, 3, 1));
    assert_eq!(7, world.matrix()[1][3]);
    assert_eq!(Some(&0), world.read_state(1, 2));
    assert_eq!(None, world.read_state(1, 3));
    assert_eq!(Some(&0), world.read_state(3, 2));
}

#[test]
fn failed_write_leaves_the_table_as_it_was() {
    let mut world: Matrix<u64> = Matrix::new(666, 4, 3);
    let before = world.clone();

    assert_eq!(false, world.set_state(777, 4, 0));
    assert_eq!(false, world.set_state(777, 0, 3));
    assert_eq!(false, world.set_state(777, usize::MAX, usize::MAX));
    assert_eq!(before, world);
    assert_eq!(None, world.read_state(4, 0));
    assert_eq!(None, world.read_state(0, 3));
}

#[test]
fn a_table_without_rows_or_columns_holds_nothing() {
    let mut no_rows: Matrix<u64> = Matrix::new(1, 4, 0);
    assert_eq!(4, no_rows.width());
    assert_eq!(0, no_rows.height());
    assert_eq!(0, no_rows.matrix().len());
    assert_eq!(None, no_rows.read_state(0, 0));
    assert_eq!(false, no_rows.set_state(2, 0, 0));

    let mut no_columns: Matrix<u64> = Matrix::new(1, 0, 3);
    assert_eq!(0, no_columns.width());
    assert_eq!(3, no_columns.height());
    assert_eq!(3, no_columns.matrix().len());
    assert_eq!(0, no_columns.matrix()[0].len());
    assert_eq!(None, no_columns.read_state(0, 0));
    assert_eq!(false, no_columns.set_state(2, 0, 0));
}

#[test]
fn a_clone_shares_nothing_with_its_source() {
    let mut world: Matrix<u64> = Matrix::new(666, 4, 3);
    let copy = world.clone();

    assert_eq!(true, world.set_state(1, 2, 2));
    assert_eq!(Some(&666), copy.read_state(2, 2));
    assert_eq!(Some(&1), world.read_state(2, 2));
    assert_eq!(4, copy.width());
    assert_eq!(3, copy.height());
}
