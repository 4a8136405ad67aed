use ascii_renderer::char_buffer::{CharBuffer, CharBufferError};

#[test]
fn char_retreival() {
    let mut buf = CharBuffer::new(3, 3);
    buf.set_char(2, 2, 'x').unwrap();
    assert_eq!(buf.get_char(2, 2).unwrap(), 'x');
}

#[test]
#[should_panic]
fn char_setter_bounds_check() {
    let mut buf = CharBuffer::new(2, 2);
    buf.set_char(2, 2, 'x').unwrap();
}

#[test]
#[should_panic]
fn char_getter_bounds_check() {
    let buf = CharBuffer::new(2, 2);
    buf.get_char(2, 2).unwrap();
}

#[test]
fn char_buf_to_string() {
    let mut buf = CharBuffer::new(3, 3);
    buf.set_char(0, 0, 'n').unwrap();
    buf.set_char(2, 1, 'x').unwrap();
    buf.set_char(2, 2, 'z').unwrap();
    assert_eq!(&buf.to_string(), "n     \n    x \n    z \n");
}

#[test]
fn new_buffer_is_blank_and_sized() {
    let buf = CharBuffer::new(4, 2);
    assert_eq!(buf.dimensions, (4, 2));
    assert_eq!(buf.data, vec![vec![' '; 4]; 2]);
    assert_eq!(buf.to_string(), "        \n        \n");
}

#[test]
fn empty_buffers_have_no_cells() {
    let none = CharBuffer::new(0, 0);
    assert_eq!(none.get_char(0, 0), None);
    assert_eq!(none.to_string(), "");
    let no_columns = CharBuffer::new(0, 2);
    assert_eq!(no_columns.get_char(0, 1), None);
    assert_eq!(no_columns.to_string(), "\n\n");
}

#[test]
fn set_then_get_reads_back_everywhere() {
    let mut buf = CharBuffer::new(5, 4);
    for y in 0..4 {
        for x in 0..5 {
            let glyph = (b'a' + (y * 5 + x) as u8) as char;
            assert!(buf.set_char(x, y, glyph).is_ok());
            assert_eq!(buf.get_char(x, y), Some(glyph));
        }
    }
    assert_eq!(buf.get_char(0, 0), Some('a'));
    assert_eq!(buf.get_char(4, 3), Some('t'));
}

#[test]
fn set_changes_one_cell_only() {
    let mut buf = CharBuffer::new(3, 2);
    buf.set_char(1, 1, '#').unwrap();
    assert_eq!(buf.data, vec![vec![' ', ' ', ' '], vec![' ', '#', ' ']]);
    assert_eq!(buf.dimensions, (3, 2));
}

#[test]
fn row_out_of_range_is_reported_with_its_row() {
    let mut buf = CharBuffer::new(3, 2);
    match buf.set_char(1, 2, 'x') {
        Err(CharBufferError::RowOutOfRange { row }) => assert_eq!(row, 2),
        other => panic!("unexpected: {:?}", other),
    }
    match buf.set_char(7, 9, 'x') {
        Err(CharBufferError::RowOutOfRange { row }) => assert_eq!(row, 9),
        other => panic!("unexpected: {:?}", other),
    }
    assert_eq!(buf.data, vec![vec![' '; 3]; 2]);
}

#[test]
fn column_out_of_range_is_reported_with_its_column() {
    let mut buf = CharBuffer::new(3, 2);
    match buf.set_char(3, 1, 'x') {
        Err(CharBufferError::ItemOutOfRange { index }) => assert_eq!(index, 3),
        other => panic!("unexpected: {:?}", other),
    }
    assert_eq!(buf.data, vec![vec![' '; 3]; 2]);
}

#[test]
fn get_out_of_range_is_none() {
    let buf = CharBuffer::new(3, 2);
    assert_eq!(buf.get_char(3, 0), None);
    assert_eq!(buf.get_char(0, 2), None);
    assert_eq!(buf.get_char(2, 1), Some(' '));
}

#[test]
fn fill_reaches_every_cell() {
    let mut buf = CharBuffer::new(4, 3);
    buf.set_char(1, 1, 'q').unwrap();
    buf.fill('.');
    for y in 0..3 {
        for x in 0..4 {
            assert_eq!(buf.get_char(x, y), Some('.'));
        }
    }
    assert_eq!(buf.dimensions, (4, 3));
    assert_eq!(buf.get_char(4, 0), None);
    assert_eq!(buf.to_string(), ". . . . \n. . . . \n. . . . \n");
}

#[test]
fn ragged_rows_are_served_row_by_row() {
    let mut buf = CharBuffer { data: vec![vec!['a'], vec!['b', 'c', 'd'], vec![]], dimensions: (3, 3) };
    assert_eq!(buf.get_char(2, 1), Some('d'));
    assert_eq!(buf.get_char(1, 0), None);
    assert!(matches!(buf.set_char(0, 2, 'x'), Err(CharBufferError::ItemOutOfRange { index: 0 })));
    buf.fill('*');
    assert_eq!(buf.data, vec![vec!['*'], vec!['*', '*', '*'], vec![]]);
    assert_eq!(buf.to_string(), "* \n* * * \n\n");
}

#[test]
fn clone_copies_cells_and_dimensions() {
    let mut buf = CharBuffer::new(2, 2);
    buf.set_char(1, 0, 'k').unwrap();
    let mut copy = buf.clone();
    assert_eq!(copy, buf);
    copy.set_char(0, 1, 'm').unwrap();
    assert_eq!(buf.get_char(0, 1), Some(' '));
    assert_eq!(copy.get_char(0, 1), Some('m'));
}
