use bytes::{Bytes, BytesMut};
use uchat::encoding::i64_to_be_bytes;
use uchat::{delimit_line, uMessage, Message};

fn encoded(m: &Message) -> Vec<u8> {
    let mut buf = BytesMut::new();
    m.append(&mut buf);
    buf.to_vec()
}

fn wrap(code: u8, data: &[u8]) -> (Message, Vec<u8>) {
    let mut buf = BytesMut::from(data);
    let m = Message::wrap(code, &mut buf);
    (m, buf.to_vec())
}

fn lines(data: &[u8]) -> Vec<Vec<u8>> {
    let mut buf = BytesMut::from(data);
    let r = delimit_line(&mut buf);
    assert!(buf.is_empty());
    r.into_iter().map(|b| b.to_vec()).collect()
}

fn unpacked(data: &[u8]) -> Vec<Message> {
    uMessage::unpack(BytesMut::from(data)).unwrap()
}

fn packed(ms: Vec<Message>) -> Vec<u8> {
    let mut u = uMessage::new();
    for m in ms {
        u.push(m);
    }
    u.pack().to_vec()
}

#[test]
fn append_text_escapes_bytes_below_eight() {
    assert_eq!(encoded(&Message::Text("a\u{1}b".to_string())), vec![3, b'a', b'\\', 1, b'b']);
    assert_eq!(encoded(&Message::Text("x\ny".to_string())), vec![3, b'x', b'\n', b'y']);
}

#[test]
fn append_binary_goes_out_raw() {
    assert_eq!(encoded(&Message::Binary(Bytes::from_static(&[1, 2, 92]))), vec![2, 1, 2, 92]);
}

#[test]
fn append_boolean_null_float() {
    assert_eq!(encoded(&Message::Boolean(true)), vec![4, b'1']);
    assert_eq!(encoded(&Message::Boolean(false)), vec![4, b'0']);
    assert_eq!(encoded(&Message::Null), vec![6]);
    assert_eq!(encoded(&Message::Float("1.5".to_string())), vec![7, b'1', b'.', b'5']);
}

#[test]
fn append_number_is_escaped_big_endian() {
    assert_eq!(
        encoded(&Message::Number(258)),
        vec![5, 92, 0, 92, 0, 92, 0, 92, 0, 92, 0, 92, 0, 92, 1, 92, 2]
    );
    assert_eq!(encoded(&Message::Number(-1)), vec![5, 255, 255, 255, 255, 255, 255, 255, 255]);
}

#[test]
fn append_keeps_what_the_buffer_held() {
    let mut buf = BytesMut::from(&b"ab"[..]);
    Message::Null.append(&mut buf);
    assert_eq!(buf.to_vec(), vec![b'a', b'b', 6]);
}

#[test]
fn be_bytes_of_numbers() {
    assert_eq!(i64_to_be_bytes(1), vec![0, 0, 0, 0, 0, 0, 0, 1]);
    assert_eq!(i64_to_be_bytes(-2), vec![255, 255, 255, 255, 255, 255, 255, 254]);
    assert_eq!(i64_to_be_bytes(i64::MIN), vec![128, 0, 0, 0, 0, 0, 0, 0]);
    assert_eq!(i64_to_be_bytes(0x0102030405060708), vec![1, 2, 3, 4, 5, 6, 7, 8]);
}

#[test]
fn wrap_numbers_by_length() {
    assert_eq!(wrap(5, &[]), (Message::Number(0), vec![]));
    assert_eq!(wrap(5, &[0xff, 0xfe]), (Message::Number(-2), vec![]));
    assert_eq!(wrap(5, &[0, 0, 1, 0]), (Message::Number(256), vec![]));
    assert_eq!(wrap(5, &[0, 0, 0, 0, 0, 0, 1, 2]), (Message::Number(258), vec![]));
    assert_eq!(wrap(5, &[0x80]), (Message::Number(-128), vec![]));
    assert_eq!(wrap(5, &[7, 8, 9]), (Message::Number(7), vec![8, 9]));
}

#[test]
fn wrap_other_codes() {
    assert_eq!(wrap(2, &[1, 2]), (Message::Binary(Bytes::from_static(&[1, 2])), vec![1, 2]));
    assert_eq!(wrap(3, "héllo".as_bytes()).0, Message::Text("héllo".to_string()));
    assert_eq!(wrap(3, &[0xff]).0, Message::Text("\u{fffd}".to_string()));
    assert_eq!(wrap(4, b"1").0, Message::Boolean(true));
    assert_eq!(wrap(4, b"0").0, Message::Boolean(false));
    assert_eq!(wrap(4, b"").0, Message::Boolean(false));
    assert_eq!(wrap(6, b"x").0, Message::Null);
    assert_eq!(wrap(7, b"2.25").0, Message::Float("2.25".to_string()));
    assert_eq!(wrap(9, b"x").0, Message::Null);
}

#[test]
fn delimit_splits_at_newlines() {
    assert_eq!(lines(b"a\nb\n"), vec![b"a".to_vec(), b"b".to_vec()]);
    assert_eq!(lines(b"abc"), vec![b"abc".to_vec()]);
    assert_eq!(lines(b"\n"), vec![Vec::<u8>::new()]);
    assert_eq!(lines(b""), Vec::<Vec<u8>>::new());
    assert_eq!(lines(b"a\\b\n"), vec![b"a\\b".to_vec()]);
}

#[test]
fn delimit_escaped_newline_still_ends_the_line() {
    assert_eq!(lines(b"a\\\nb\n"), vec![b"a\n".to_vec(), b"b".to_vec()]);
}

#[test]
fn unpack_lines() {
    assert_eq!(unpacked(b""), Vec::<Message>::new());
    assert_eq!(unpacked(b"hi"), vec![Message::Text("hi".to_string())]);
    assert_eq!(
        unpacked(b"hi\x041\x03yo\x06"),
        vec![
            Message::Text("hi".to_string()),
            Message::Boolean(true),
            Message::Text("yo".to_string()),
            Message::Null,
        ]
    );
    assert_eq!(unpacked(b"a\\\x02b"), vec![Message::Text("a\x02b".to_string())]);
    assert_eq!(unpacked(b"a\\"), vec![Message::Text("a\\".to_string())]);
    assert_eq!(unpacked(b"\x02"), vec![Message::Text(String::new()), Message::Binary(Bytes::new())]);
}

#[test]
fn pack_needs_two_messages() {
    assert_eq!(packed(vec![]), b"\n".to_vec());
    assert_eq!(packed(vec![Message::Text("j".to_string())]), b"\n".to_vec());
}

#[test]
fn pack_lines() {
    assert_eq!(
        packed(vec![Message::Text("j".to_string()), Message::Text("room".to_string()), Message::Null]),
        b"j\x03room\x06\n".to_vec()
    );
    assert_eq!(
        packed(vec![Message::Text("j".to_string()), Message::Text("a\nb".to_string())]),
        b"j\x03a\\\nb\n".to_vec()
    );
}

#[test]
fn pack_then_split_then_unpack() {
    let ms = vec![
        Message::Text("j".to_string()),
        Message::Text("ro\u{1}om".to_string()),
        Message::Number(1234567),
        Message::Boolean(false),
        Message::Binary(Bytes::from_static(b"raw")),
        Message::Float("0.5".to_string()),
        Message::Null,
    ];
    let frame = packed(ms.clone());
    let ls = lines(&frame);
    assert_eq!(ls.len(), 1);
    assert_eq!(unpacked(&ls[0]), ms);
}

#[test]
fn frames_in_sequence_come_apart() {
    let a = vec![Message::Text("a".to_string()), Message::Boolean(true)];
    let b = vec![Message::Text("b".to_string()), Message::Number(-5)];
    let mut stream = packed(a.clone());
    stream.extend(packed(b.clone()));
    let ls = lines(&stream);
    assert_eq!(ls.len(), 2);
    assert_eq!(unpacked(&ls[0]), a);
    assert_eq!(unpacked(&ls[1]), b);
}

#[test]
fn text_with_a_newline_does_not_come_back_whole() {
    let ms = vec![Message::Text("j".to_string()), Message::Text("a\nb".to_string())];
    let ls = lines(&packed(ms));
    assert_eq!(ls.len(), 2);
}

#[test]
fn umessage_len_push_unwrap() {
    let mut u = uMessage::new();
    assert_eq!(u.len(), 0);
    u.push(Message::Null);
    u.push(Message::Boolean(true));
    assert_eq!(u.len(), 2);
    assert_eq!(u.unwrap(), vec![Message::Null, Message::Boolean(true)]);
}

fn unescaped(s: &[u8]) -> Vec<u8> {
    let mut r = Vec::new();
    let mut i = 0;
    while i < s.len() {
        if s[i] == 92 && i + 1 < s.len() {
            r.push(s[i + 1]);
            i += 2;
        } else {
            r.push(s[i]);
            i += 1;
        }
    }
    r
}

#[test]
fn wrap_reads_back_what_append_wrote() {
    let ms = vec![
        Message::Text("a\u{1}\nz".to_string()),
        Message::Binary(Bytes::from_static(&[0, 3, 10, 200])),
        Message::Boolean(true),
        Message::Null,
        Message::Number(-77),
        Message::Float("3.5".to_string()),
    ];
    for m in ms {
        let e = encoded(&m);
        let (back, _) = wrap(e[0], &unescaped(&e[1..]));
        assert_eq!(back, m);
    }
}
