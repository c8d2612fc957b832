use async_in_embedded::writer::{Buffer, BufferFull};

fn drain<const N: usize>(b: &mut Buffer<N>) -> Vec<u8> {
    let mut out = Vec::new();
    while let Some(byte) = b.read_next() {
        out.push(byte);
        b.mark_byte_as_read();
    }
    out
}

#[test]
fn new_buffer_is_finished() {
    let b = Buffer::<8>::new();
    assert!(b.is_read_finished());
    assert_eq!(b.read_next(), None);
}

#[test]
fn written_text_comes_back_in_order() {
    let mut b = Buffer::<16>::new();
    assert_eq!(b.write_str("hello"), Ok(()));
    assert!(!b.is_read_finished());
    assert_eq!(b.read_next(), Some(b'h'));
    assert_eq!(b.read_next(), Some(b'h'));
    b.mark_byte_as_read();
    assert_eq!(b.read_next(), Some(b'e'));
    assert_eq!(drain(&mut b), b"ello".to_vec());
    assert!(b.is_read_finished());
}

#[test]
fn appends_after_waiting_bytes() {
    let mut b = Buffer::<8>::new();
    assert_eq!(b.write_str("ab"), Ok(()));
    b.mark_byte_as_read();
    assert_eq!(b.write_str("cd"), Ok(()));
    assert_eq!(drain(&mut b), b"bcd".to_vec());
}

#[test]
fn text_that_does_not_fit_is_refused_whole() {
    let mut b = Buffer::<4>::new();
    assert_eq!(b.write_str("abc"), Ok(()));
    assert_eq!(b.write_str("de"), Err(BufferFull));
    assert_eq!(b.write_str("d"), Ok(()));
    assert_eq!(b.write_str(""), Ok(()));
    assert_eq!(b.write_str("e"), Err(BufferFull));
    // bytes already read still take room until the buffer is drained
    b.mark_byte_as_read();
    assert_eq!(b.write_str("e"), Err(BufferFull));
    assert_eq!(drain(&mut b), b"bcd".to_vec());
    assert_eq!(b.write_str("wxyz"), Ok(()));
    assert_eq!(drain(&mut b), b"wxyz".to_vec());
}

#[test]
fn multibyte_text_is_written_as_utf8() {
    let mut b = Buffer::<8>::new();
    assert_eq!(b.write_str("é"), Ok(()));
    assert_eq!(drain(&mut b), "é".as_bytes().to_vec());
}

#[test]
fn marking_a_finished_buffer_changes_nothing() {
    let mut b = Buffer::<4>::new();
    b.mark_byte_as_read();
    assert!(b.is_read_finished());
    assert_eq!(b.write_str("abcd"), Ok(()));
    assert_eq!(drain(&mut b), b"abcd".to_vec());
}

#[test]
fn empty_write_into_empty_buffer_keeps_it_finished() {
    let mut b = Buffer::<4>::new();
    assert_eq!(b.write_str(""), Ok(()));
    assert!(b.is_read_finished());
}

#[test]
fn zero_capacity_buffer() {
    let mut b = Buffer::<0>::new();
    assert_eq!(b.write_str(""), Ok(()));
    assert_eq!(b.write_str("a"), Err(BufferFull));
    assert!(b.is_read_finished());
}
