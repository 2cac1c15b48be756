use ptymux::buffer::PaneBuffer;

#[test]
fn append_within_capacity_keeps_everything() {
    let mut buf = PaneBuffer::new(8);
    buf.append(&b"abc"[..]);
    buf.append(&b"de"[..]);
    assert_eq!(buf.bytes().as_slice(), b"abcde");
    assert_eq!(buf.len(), 5);
}

#[test]
fn append_past_capacity_keeps_most_recent_suffix() {
    let mut buf = PaneBuffer::new(5);
    buf.append(&b"hello world"[..]);
    assert_eq!(buf.bytes().as_slice(), b"world");
}

#[test]
fn oldest_bytes_drop_first_across_appends() {
    let mut buf = PaneBuffer::new(5);
    buf.append(&b"abc"[..]);
    buf.append(&b"de"[..]);
    buf.append(&b"fg"[..]);
    assert_eq!(buf.bytes().as_slice(), b"cdefg");
    buf.append(&b""[..]);
    assert_eq!(buf.bytes().as_slice(), b"cdefg");
}

#[test]
fn append_exactly_capacity() {
    let mut buf = PaneBuffer::new(5);
    buf.append(&b"12345"[..]);
    assert_eq!(buf.bytes().as_slice(), b"12345");
    buf.append(&b"67890"[..]);
    assert_eq!(buf.bytes().as_slice(), b"67890");
}

#[test]
fn zero_capacity_retains_nothing() {
    let mut buf = PaneBuffer::new(0);
    buf.append(&b"xyz"[..]);
    assert_eq!(buf.len(), 0);
    assert_eq!(buf.bytes().as_slice(), b"");
}
