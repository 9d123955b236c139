use rsbrainfuck::input::{Input, InputBuffer};

#[test]
fn input_test_next() {
    let mut buf = InputBuffer::new();
    buf.refill("ab");
    assert_eq!(buf.next(), Some('a'));
    assert_eq!(buf.next(), Some('b'));
}

#[test]
fn inputbuffer_test_next() {
    let mut buf = InputBuffer::new();
    buf.refill("ab");
    assert_eq!(buf.next(), Some('a'));
    assert_eq!(buf.next(), Some('b'));
}

#[test]
fn empty_buffer_yields_nothing() {
    let mut buf = InputBuffer::new();
    assert_eq!(buf.next(), None);
    assert_eq!(buf.next(), None);
    assert_eq!(buf.read_char(), None);
}

#[test]
fn refill_puts_a_line_behind_what_is_left() {
    let mut buf = InputBuffer::new();
    buf.refill("ab");
    assert_eq!(buf.next(), Some('a'));
    buf.refill("c\n");
    buf.refill("");
    assert_eq!(buf.read_char(), Some('b'));
    assert_eq!(buf.read_char(), Some('c'));
    assert_eq!(buf.read_char(), Some('\n'));
    assert_eq!(buf.read_char(), None);
}

#[test]
fn buffer_counts_characters_not_bytes() {
    let mut buf = InputBuffer::new();
    buf.refill("é€");
    assert_eq!(buf.next(), Some('é'));
    assert_eq!(buf.next(), Some('€'));
    assert_eq!(buf.next(), None);
}

#[test]
fn any_iterator_over_characters_is_a_source() {
    let mut chars = "hi".chars();
    assert_eq!(chars.read_char(), Some('h'));
    assert_eq!(chars.read_char(), Some('i'));
    assert_eq!(chars.read_char(), None);
    let mut queue = vec!['x'].into_iter();
    assert_eq!(queue.read_char(), Some('x'));
    assert_eq!(queue.read_char(), None);
}
