use avrs::parser::reader::{whitespace, ReadError, Reader};
use avrs::parser::tagged::Span;

fn create(value: &str) -> Reader<256> {
    Reader::new(value.as_bytes())
}

#[test]
fn test_read() {
    let mut reader = create("abcd");
    assert_eq!(Some(b'a'), reader.read().unwrap());
    assert_eq!(1, reader.offset());
    assert_eq!(Some(b'b'), reader.read().unwrap());
    assert_eq!(2, reader.offset());
    assert_eq!(Some(b'c'), reader.read().unwrap());
    assert_eq!(3, reader.offset());
    assert_eq!(Some(b'd'), reader.read().unwrap());
    assert_eq!(4, reader.offset());
    assert_eq!(None, reader.read().unwrap());
    assert_eq!(5, reader.offset());
    assert_eq!(None, reader.read().unwrap());
    assert_eq!(5, reader.offset());
}

#[test]
fn test_peek() {
    let mut reader = create("abc");
    assert_eq!(Some(b'a'), reader.peek().unwrap());
    assert_eq!(Some(b'a'), reader.peek().unwrap());
    assert_eq!(Some(b'a'), reader.peek().unwrap());
    assert_eq!(Some(b'a'), reader.read().unwrap());
    assert_eq!(1, reader.offset());
    assert_eq!(Some(b'b'), reader.peek().unwrap());
    assert_eq!(Some(b'b'), reader.peek().unwrap());
    assert_eq!(Some(b'b'), reader.read().unwrap());
    assert_eq!(2, reader.offset());
    assert_eq!(Some(b'c'), reader.peek().unwrap());
    assert_eq!(Some(b'c'), reader.peek().unwrap());
    assert_eq!(Some(b'c'), reader.read().unwrap());
    assert_eq!(3, reader.offset());
    assert_eq!(None, reader.peek().unwrap());
    assert_eq!(None, reader.peek().unwrap());
    assert_eq!(None, reader.read().unwrap());
    assert_eq!(4, reader.offset());
}

#[test]
fn test_skip() {
    let mut reader = create("    abc");
    reader.skip_until(|b| !whitespace(b)).unwrap();

    assert_eq!(Some(b'a'), reader.read().unwrap());
    assert_eq!(5, reader.offset());
    assert_eq!(Some(b'b'), reader.read().unwrap());
    assert_eq!(6, reader.offset());
    assert_eq!(Some(b'c'), reader.peek().unwrap());
    assert_eq!(Some(b'c'), reader.peek().unwrap());
    assert_eq!(Some(b'c'), reader.read().unwrap());
    assert_eq!(7, reader.offset());
    assert_eq!(None, reader.read().unwrap());
    assert_eq!(8, reader.offset());
}

#[test]
fn test_buffer_boundaries_read() {
    let value = "hello";
    let mut reader = Reader::<2>::new(value.as_bytes());

    let mut buffer = vec![];
    while let Some(byte) = reader.read().unwrap() {
        buffer.push(byte);
    }
    assert_eq!(std::str::from_utf8(&buffer).unwrap(), value);
}

#[test]
fn test_buffer_boundaries_peek() {
    let value = "hello";
    let mut reader = Reader::<2>::new(value.as_bytes());

    let mut buffer = vec![];

    reader.peek().unwrap();
    buffer.push(reader.read().unwrap().unwrap());
    buffer.push(reader.read().unwrap().unwrap());
    // boundary hit
    reader.peek().unwrap();
    buffer.push(reader.read().unwrap().unwrap());
    buffer.push(reader.read().unwrap().unwrap());
    buffer.push(reader.read().unwrap().unwrap());

    assert_eq!(std::str::from_utf8(&buffer).unwrap(), value);
}

#[test]
fn read_exact_at_end() {
    let mut reader = create("x");
    assert_eq!(b'x', reader.read_exact().unwrap());
    assert_eq!(Err(ReadError::UnexpectedEOF { span: Span { offset: 2, len: 0 } }), reader.read_exact());
    assert_eq!(Err(ReadError::UnexpectedEOF { span: Span { offset: 2, len: 0 } }), reader.read_exact());
}

#[test]
fn empty_chunk_size_sees_nothing() {
    let mut reader = Reader::<0>::new(b"abc");
    assert_eq!(None, reader.peek().unwrap());
    assert_eq!(None, reader.read().unwrap());
    assert_eq!(1, reader.offset());
}

#[test]
fn one_byte_chunks() {
    let mut reader = Reader::<1>::new(b"ab\tc");
    reader.skip_until(|b| whitespace(b)).unwrap();
    assert_eq!(2, reader.offset());
    assert_eq!(Some(b'\t'), reader.read().unwrap());
    assert_eq!(Some(b'c'), reader.read().unwrap());
}

#[test]
fn blanks() {
    assert!(whitespace(b' '));
    assert!(whitespace(b'\t'));
    assert!(!whitespace(b'\n'));
    assert!(!whitespace(b'a'));
}

#[test]
fn reads_go_through_the_input_in_order() {
    let input = b"xyz";
    let mut reader: Reader<2> = Reader::new(input);
    for k in 0..6usize {
        let peeked = reader.peek().unwrap();
        let read = reader.read().unwrap();
        assert_eq!(peeked, read);
        if k < input.len() {
            assert_eq!(Some(input[k]), read);
            assert_eq!(k + 1, reader.offset());
        } else {
            assert_eq!(None, read);
            assert_eq!(input.len() + 1, reader.offset());
        }
    }
}
