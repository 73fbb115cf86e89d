use frame_engine::net::{drain_framed, encode_frame};

#[test]
fn frame_has_big_endian_length_prefix() {
    assert_eq!(encode_frame(b"hi"), vec![0, 0, 0, 2, b'h', b'i']);
    assert_eq!(encode_frame(b""), vec![0, 0, 0, 0]);
    let long = vec![7u8; 258];
    let framed = encode_frame(&long);
    assert_eq!(&framed[..4], &[0, 0, 1, 2]);
    assert_eq!(framed.len(), 262);
}

#[test]
fn drain_takes_complete_messages_in_order() {
    let mut buffer = encode_frame(b"one");
    buffer.extend(encode_frame(b"two"));
    buffer.extend(&[0, 0, 0, 5, b'p']);
    let payloads = drain_framed(&mut buffer);
    assert_eq!(payloads, vec![b"one".to_vec(), b"two".to_vec()]);
    assert_eq!(buffer, vec![0, 0, 0, 5, b'p']);
}

#[test]
fn partial_message_waits_for_the_rest() {
    let mut buffer = vec![0, 0];
    assert!(drain_framed(&mut buffer).is_empty());
    assert_eq!(buffer, vec![0, 0]);
    buffer.extend(&[0, 3, b'a', b'b']);
    assert!(drain_framed(&mut buffer).is_empty());
    buffer.push(b'c');
    assert_eq!(drain_framed(&mut buffer), vec![b"abc".to_vec()]);
    assert!(buffer.is_empty());
}

#[test]
fn empty_payload_is_a_message() {
    let mut buffer = encode_frame(b"");
    assert_eq!(drain_framed(&mut buffer), vec![Vec::<u8>::new()]);
    assert!(buffer.is_empty());
}
