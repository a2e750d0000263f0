use bytes::BytesMut;
use uchat::room::{incoming_lines, ping_frame};
use uchat::{decide_line, handle_frame, CurrentState, Frame, FrameAction, LineAction, Message};

fn text(s: &str) -> Message {
    Message::Text(s.to_string())
}

#[test]
fn key_line() {
    let mut st = CurrentState::Idle;
    match decide_line(&mut st, vec![text("k"), text("x")]) {
        LineAction::Key(v) => assert_eq!(v, vec![text("k"), text("x")]),
        _ => panic!("not a key"),
    }
    assert_eq!(st, CurrentState::Idle);
}

#[test]
fn key_line_while_joining_is_still_a_key() {
    let mut st = CurrentState::JoinProcess;
    assert!(matches!(decide_line(&mut st, vec![text("k")]), LineAction::Key(_)));
    assert_eq!(st, CurrentState::JoinProcess);
}

#[test]
fn out_line_loses_its_second_field() {
    let mut st = CurrentState::Joined;
    match decide_line(&mut st, vec![text("o"), text("nick"), text("z")]) {
        LineAction::Receive(v) => assert_eq!(v, vec![text("o"), text("z")]),
        _ => panic!("not received"),
    }
}

#[test]
fn join_steps() {
    let mut st = CurrentState::Idle;
    assert!(matches!(decide_line(&mut st, vec![text("i1")]), LineAction::Nothing));
    assert_eq!(st, CurrentState::JoinProcess);
    match decide_line(&mut st, vec![text("i2")]) {
        LineAction::Send(frames) => assert_eq!(
            frames,
            vec![
                b"commanduserList'\n".to_vec(),
                b"commandio1\n".to_vec(),
                b"commandchatList\n".to_vec(),
                b"commandnoticeList\n".to_vec(),
            ]
        ),
        _ => panic!("no commands"),
    }
    assert_eq!(st, CurrentState::Joined);
}

#[test]
fn error_and_other_lines() {
    let mut st = CurrentState::Joined;
    assert!(matches!(decide_line(&mut st, vec![text("ERR"), text("e")]), LineAction::UChatErr(_)));
    match decide_line(&mut st, vec![text("c"), text("hello")]) {
        LineAction::Receive(v) => assert_eq!(v, vec![text("c"), text("hello")]),
        _ => panic!("not received"),
    }
    match decide_line(&mut st, vec![Message::Null]) {
        LineAction::Receive(v) => assert_eq!(v, vec![Message::Null]),
        _ => panic!("not received"),
    }
    assert_eq!(st, CurrentState::Joined);
}

#[test]
fn frames() {
    assert!(matches!(handle_frame(Frame::Ping), FrameAction::Pong));
    assert!(matches!(handle_frame(Frame::Other), FrameAction::Skip));
    assert!(matches!(handle_frame(Frame::Binary(vec![])), FrameAction::Skip));
    match handle_frame(Frame::Binary(b"c\x03hi\n\nk\x041\n".to_vec())) {
        FrameAction::Lines(ls) => assert_eq!(
            ls,
            vec![vec![text("c"), text("hi")], vec![text("k"), Message::Boolean(true)]]
        ),
        _ => panic!("no lines"),
    }
    match handle_frame(Frame::Text("a\n".to_string())) {
        FrameAction::Lines(ls) => assert_eq!(ls, vec![vec![text("a")]]),
        _ => panic!("no lines"),
    }
}

#[test]
fn incoming_lines_empties_the_buffer() {
    let mut b = BytesMut::from(&b"x\n\ny"[..]);
    let ls = incoming_lines(&mut b);
    assert!(b.is_empty());
    assert_eq!(ls, vec![vec![text("x")], vec![text("y")]]);
}

#[test]
fn ping_is_p_newline() {
    assert_eq!(ping_frame(), b"p\n".to_vec());
}
