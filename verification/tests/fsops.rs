use puppypeer::fsops::{
    make_chunk, read_chunk_from, read_plan, write_plan, write_to_content, WriteError,
    MAX_FILE_CHUNK,
};

#[test]
fn read_plan_caps_at_chunk_maximum() {
    assert_eq!(read_plan(10 * 1024 * 1024, 0, None), MAX_FILE_CHUNK);
    assert_eq!(read_plan(10 * 1024 * 1024, 0, Some(5 * 1024 * 1024)), MAX_FILE_CHUNK);
    assert_eq!(read_plan(100, 0, Some(10)), 10);
    assert_eq!(read_plan(100, 90, Some(100)), 10);
    assert_eq!(read_plan(100, 0, None), 100);
}

#[test]
fn read_at_end_is_empty_and_eof() {
    let content = vec![1u8, 2, 3];
    let c = read_chunk_from(&content, 3, None);
    assert_eq!(c.offset, 3);
    assert!(c.data.is_empty());
    assert!(c.eof);
    let past = read_chunk_from(&content, 7, Some(1));
    assert!(past.data.is_empty());
    assert!(past.eof);
}

#[test]
fn unbounded_read_of_large_file_is_capped_without_eof() {
    let content = vec![7u8; 10 * 1024 * 1024];
    let c = read_chunk_from(&content, 0, None);
    assert_eq!(c.data.len() as u64, MAX_FILE_CHUNK);
    assert!(!c.eof);
}

#[test]
fn bounded_read_returns_exact_window() {
    let content = vec![10u8, 11, 12, 13, 14];
    let c = read_chunk_from(&content, 1, Some(2));
    assert_eq!(c.offset, 1);
    assert_eq!(c.data, vec![11u8, 12]);
    assert!(!c.eof);
    let tail = read_chunk_from(&content, 3, Some(2));
    assert_eq!(tail.data, vec![13u8, 14]);
    assert!(tail.eof);
}

#[test]
fn eof_marks_exact_end() {
    let c = make_chunk(5, 2, vec![0u8, 0, 0]);
    assert!(c.eof);
    let c = make_chunk(6, 2, vec![0u8, 0, 0]);
    assert!(!c.eof);
}

#[test]
fn write_overflow_is_invalid_argument() {
    assert_eq!(write_plan(0, u64::MAX, 1), Err(WriteError::LengthOverflow));
    let mut content = vec![0u8];
    let data = vec![1u8];
    let r = write_to_content(&mut content, u64::MAX, &data);
    assert_eq!(r, Err(WriteError::LengthOverflow));
    assert_eq!(content, vec![0u8]);
}

#[test]
fn write_plan_extends_only_forward() {
    assert_eq!(write_plan(10, 0, 3), Ok(10));
    assert_eq!(write_plan(10, 8, 5), Ok(13));
    assert_eq!(write_plan(0, 4, 2), Ok(6));
}

#[test]
fn write_then_read_back_roundtrip() {
    let mut content: Vec<u8> = Vec::new();
    let data = vec![b'a', b'b', b'c'];
    let ack = write_to_content(&mut content, 0, &data).unwrap();
    assert_eq!(ack.bytes_written, 3);
    let c = read_chunk_from(&content, 0, Some(3));
    assert_eq!(c.data, data);
    assert!(c.eof);
    let middle = read_chunk_from(&content, 1, Some(1));
    assert_eq!(middle.offset, 1);
    assert_eq!(middle.data, vec![b'b']);
    assert!(!middle.eof);
}

#[test]
fn write_beyond_end_zero_fills() {
    let mut content = vec![9u8];
    let data = vec![5u8, 6];
    write_to_content(&mut content, 3, &data).unwrap();
    assert_eq!(content, vec![9u8, 0, 0, 5, 6]);
}

#[test]
fn write_inside_keeps_tail() {
    let mut content = vec![1u8, 2, 3, 4, 5];
    let data = vec![8u8];
    write_to_content(&mut content, 1, &data).unwrap();
    assert_eq!(content, vec![1u8, 8, 3, 4, 5]);
}
