use pexand::sentinel::Buffer;

#[test]
fn test_new_buffer() {
    let buffer = Buffer::new(10);
    assert_eq!(buffer.len(), 0);
    assert!(buffer.is_empty());
    assert_eq!(buffer.as_string(), "");
}

#[test]
fn test_push_characters() {
    let mut buffer = Buffer::new(5);
    buffer.push('h');
    buffer.push('e');
    buffer.push('l');
    buffer.push('l');
    buffer.push('o');

    assert_eq!(buffer.len(), 5);
    assert_eq!(buffer.as_string(), "hello");
}

#[test]
fn test_buffer_overflow() {
    let mut buffer = Buffer::new(3);
    buffer.push('a');
    buffer.push('b');
    buffer.push('c');
    buffer.push('d');
    buffer.push('e');

    assert_eq!(buffer.len(), 3);
    assert_eq!(buffer.as_string(), "cde");
}

#[test]
fn test_clear_buffer() {
    let mut buffer = Buffer::new(10);
    buffer.push('t');
    buffer.push('e');
    buffer.push('s');
    buffer.push('t');

    assert_eq!(buffer.len(), 4);

    buffer.clear();

    assert_eq!(buffer.len(), 0);
    assert!(buffer.is_empty());
    assert_eq!(buffer.as_string(), "");
}

#[test]
fn test_last_n() {
    let mut buffer = Buffer::new(20);
    "hello world".chars().for_each(|c| buffer.push(c));

    assert_eq!(buffer.last_n(5), "world");
    assert_eq!(buffer.last_n(11), "hello world");
    assert_eq!(buffer.last_n(20), "hello world");
}

#[test]
fn test_trigger_detection() {
    let mut buffer = Buffer::new(50);

    "This is ;name".chars().for_each(|c| buffer.push(c));

    let contents = buffer.as_string();
    assert!(contents.contains(";name"));
    assert_eq!(buffer.last_n(5), ";name");
}

#[test]
fn buffer_keeps_the_last_characters_typed() {
    let mut buffer = Buffer::new(4);
    "abcdefgh".chars().for_each(|c| buffer.push(c));
    assert_eq!(buffer.as_string(), "efgh");
    assert_eq!(buffer.len(), 4);
}

#[test]
fn zero_sized_buffer_keeps_nothing() {
    let mut buffer = Buffer::new(0);
    buffer.push('x');
    buffer.push('y');
    assert_eq!(buffer.as_string(), "");
    assert_eq!(buffer.len(), 0);
}

#[test]
fn push_drops_the_oldest_only_when_full() {
    let mut buffer = Buffer::new(3);
    buffer.push('a');
    buffer.push('b');
    assert_eq!(buffer.as_string(), "ab");
    buffer.push('c');
    assert_eq!(buffer.as_string(), "abc");
    buffer.push('d');
    assert_eq!(buffer.as_string(), "bcd");
    assert_eq!(buffer.len(), 3);
}

#[test]
fn last_n_of_zero_is_empty() {
    let mut buffer = Buffer::new(5);
    buffer.push('a');
    assert_eq!(buffer.last_n(0), "");
}
