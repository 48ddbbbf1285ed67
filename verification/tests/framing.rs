use qwen2api::framing::{find_subslice, message_text, MessageBuffer};

fn drain(buffer: &mut MessageBuffer) -> Vec<Vec<u8>> {
    let mut out = Vec::new();
    while let Some(message) = buffer.next_message() {
        out.push(message);
    }
    out
}

#[test]
fn subslices_are_found() {
    assert_eq!(find_subslice(b"abcabc", b"ca"), Some(2));
    assert_eq!(find_subslice(b"abcabc", b"abc"), Some(0));
    assert_eq!(find_subslice(b"abc", b"d"), None);
    assert_eq!(find_subslice(b"abc", b""), None);
    assert_eq!(find_subslice(b"ab", b"abc"), None);
    assert_eq!(find_subslice(b"\n\n\n", b"\n\n"), Some(0));
}

#[test]
fn messages_end_at_two_line_feeds() {
    let mut buffer = MessageBuffer::new();
    assert!(buffer.is_empty());
    buffer.extend(&b"one\n\ntwo\nmore\n\n\n\nrest".to_vec());
    assert_eq!(drain(&mut buffer), vec![b"one".to_vec(), b"two\nmore".to_vec(), Vec::new()]);
    assert!(!buffer.is_empty());
    assert_eq!(buffer.take_all(), b"rest".to_vec());
    assert!(buffer.is_empty());
}

#[test]
fn chunks_do_not_change_the_messages() {
    let all = "data: 你\n\ndata: 好\n\n\nlast".as_bytes().to_vec();
    let mut whole = MessageBuffer::new();
    whole.extend(&all);
    let expected = drain(&mut whole);
    let rest = whole.take_all();
    for size in 1..all.len() {
        let mut buffer = MessageBuffer::new();
        let mut got = Vec::new();
        for chunk in all.chunks(size) {
            buffer.extend(&chunk.to_vec());
            got.extend(drain(&mut buffer));
        }
        assert_eq!(got, expected);
        assert_eq!(buffer.take_all(), rest);
    }
    for message in &expected {
        assert!(String::from_utf8(message.clone()).is_ok());
    }
}

#[test]
fn bytes_that_are_no_text_are_replaced() {
    assert_eq!(message_text(&"data: 好".as_bytes().to_vec()), "data: 好");
    assert_eq!(message_text(&vec![b'a', 0xff, b'b']), "a\u{fffd}b");
}
