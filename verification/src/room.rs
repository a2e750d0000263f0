//! What a client does with what the server sends: a frame becomes lines of
//! messages, and each line moves the join state and names the reaction.
use vstd::prelude::*;
use vstd::utf8::encode_utf8;
use bytes::BytesMut;
use crate::buffer::{bm_from_slice, bytes_mut_contents};
use crate::protocol::{
    delimit_line, delimit_spec, lines_view, messages_view, uMessage, unpack_spec, Message,
    MessageView,
};

verus! {

/// Where the client stands in joining its room.
#[derive(Clone, Debug, PartialEq, Eq, Structural)]
pub enum CurrentState {
    Idle,
    JoinProcess,
    Joined,
}

/// What the client does with a line.
pub enum LineAction {
    /// Hand the line, a member's key, to the room.
    Key(Vec<Message>),
    /// Hand the line to the room as a received line.
    Receive(Vec<Message>),
    /// Send these binary frames to the server.
    Send(Vec<Vec<u8>>),
    /// Hand the line, an error report of the server, to the room.
    UChatErr(Vec<Message>),
    /// Nothing beyond the change of state.
    Nothing,
}

/// What a `LineAction` stands for.
pub enum LineActionView {
    Key(Seq<MessageView>),
    Receive(Seq<MessageView>),
    Send(Seq<Seq<u8>>),
    UChatErr(Seq<MessageView>),
    Nothing,
}

/// The contents of a vector of byte vectors.
pub open spec fn frames_view(v: Seq<Vec<u8>>) -> Seq<Seq<u8>> {
    v.map_values(|f: Vec<u8>| f@)
}

impl View for LineAction {
    type V = LineActionView;

    open spec fn view(&self) -> LineActionView {
        match self {
            LineAction::Key(v) => LineActionView::Key(messages_view(v@)),
            LineAction::Receive(v) => LineActionView::Receive(messages_view(v@)),
            LineAction::Send(v) => LineActionView::Send(frames_view(v@)),
            LineAction::UChatErr(v) => LineActionView::UChatErr(messages_view(v@)),
            LineAction::Nothing => LineActionView::Nothing,
        }
    }
}

/// The text that opens a line, if the line opens with a text.
pub open spec fn line_head(ms: Seq<MessageView>) -> Option<Seq<char>> {
    if ms.len() > 0 {
        match ms[0] {
            MessageView::Text(s) => Some(s),
            _ => None,
        }
    } else {
        None
    }
}

/// The commands a client sends once it has joined: the lists of users, of
/// chat lines and of notices.
pub open spec fn joined_commands() -> Seq<Seq<u8>> {
    seq![
        encode_utf8("commanduserList'\n"@),
        encode_utf8("commandio1\n"@),
        encode_utf8("commandchatList\n"@),
        encode_utf8("commandnoticeList\n"@),
    ]
}

/// The next state and the reaction for a line received in `state`.
///
/// A `k` line is a key; an `o` line (a member leaving) loses its second field
/// and is received; `i1` starts joining; `i2` completes it and asks for the
/// lists; an `ERR` line is an error report; every other line is received.
pub open spec fn decide_spec(state: CurrentState, ms: Seq<MessageView>) -> (
    CurrentState,
    LineActionView,
) {
    match line_head(ms) {
        Some(k) => if k == "k"@ {
            (state, LineActionView::Key(ms))
        } else if k == "o"@ {
            (state, LineActionView::Receive(ms.remove(1)))
        } else if k == "i1"@ {
            (CurrentState::JoinProcess, LineActionView::Nothing)
        } else if k == "i2"@ {
            (CurrentState::Joined, LineActionView::Send(joined_commands()))
        } else if k == "ERR"@ {
            (state, LineActionView::UChatErr(ms))
        } else {
            (state, LineActionView::Receive(ms))
        },
        None => (state, LineActionView::Receive(ms)),
    }
}

/// Law: only the lines that open with `i1` or `i2` move the join state; `i1`
/// always leads to joining and `i2` to joined, from any state.
pub proof fn lemma_state_moves_only_on_join_lines(state: CurrentState, ms: Seq<MessageView>)
    ensures
        decide_spec(state, ms).0 != state ==> line_head(ms) == Some("i1"@) || line_head(ms) == Some(
            "i2"@,
        ),
        line_head(ms) == Some("i1"@) ==> decide_spec(state, ms).0 == CurrentState::JoinProcess,
        line_head(ms) == Some("i2"@) ==> decide_spec(state, ms).0 == CurrentState::Joined,
{
    reveal_strlit("k");
    reveal_strlit("o");
    reveal_strlit("i1");
    reveal_strlit("i2");
    assert("i1"@.len() != "k"@.len());
    assert("i1"@.len() != "o"@.len());
    assert("i2"@.len() != "k"@.len());
    assert("i2"@.len() != "o"@.len());
    assert("i1"@[1] != "i2"@[1]);
}

/// Law: the reaction to a line, by its head, in every state. A `k` line is a
/// key and an `ERR` line an error report, both handed on whole; an `o` line is
/// received without its second field; `i1` and `i2` move the state and `i2`
/// asks for the lists; every other line, with or without a text head, is
/// received whole. Only `i1` and `i2` change the state.
pub proof fn lemma_line_reactions(state: CurrentState, ms: Seq<MessageView>)
    ensures
        line_head(ms) == Some("k"@) ==> decide_spec(state, ms) == (state, LineActionView::Key(ms)),
        line_head(ms) == Some("o"@) ==> decide_spec(state, ms) == (
            state,
            LineActionView::Receive(ms.remove(1)),
        ),
        line_head(ms) == Some("i1"@) ==> decide_spec(state, ms) == (
            CurrentState::JoinProcess,
            LineActionView::Nothing,
        ),
        line_head(ms) == Some("i2"@) ==> decide_spec(state, ms) == (
            CurrentState::Joined,
            LineActionView::Send(joined_commands()),
        ),
        line_head(ms) == Some("ERR"@) ==> decide_spec(state, ms) == (
            state,
            LineActionView::UChatErr(ms),
        ),
        line_head(ms) != Some("k"@) && line_head(ms) != Some("o"@) && line_head(ms) != Some("i1"@)
            && line_head(ms) != Some("i2"@) && line_head(ms) != Some("ERR"@) ==> decide_spec(
            state,
            ms,
        ) == (state, LineActionView::Receive(ms)),
        joined_commands() == seq![
            encode_utf8("commanduserList'\n"@),
            encode_utf8("commandio1\n"@),
            encode_utf8("commandchatList\n"@),
            encode_utf8("commandnoticeList\n"@),
        ],
{
    reveal_strlit("k");
    reveal_strlit("o");
    reveal_strlit("i1");
    reveal_strlit("i2");
    reveal_strlit("ERR");
    assert("k"@[0] != "o"@[0]);
    assert("i1"@.len() != "k"@.len());
    assert("i1"@.len() != "o"@.len());
    assert("i2"@.len() != "k"@.len());
    assert("i2"@.len() != "o"@.len());
    assert("i1"@[1] != "i2"@[1]);
    assert("ERR"@.len() != "k"@.len());
    assert("ERR"@.len() != "o"@.len());
    assert("ERR"@.len() != "i1"@.len());
    assert("ERR"@.len() != "i2"@.len());
}

fn command(s: &str) -> (r: Vec<u8>)
    ensures
        r@ == encode_utf8(s@),
{
    vstd::slice::slice_to_vec(s.as_bytes())
}

fn joined_command_frames() -> (r: Vec<Vec<u8>>)
    ensures
        frames_view(r@) == joined_commands(),
{
    let mut r: Vec<Vec<u8>> = Vec::new();
    r.push(command("commanduserList'\n"));
    r.push(command("commandio1\n"));
    r.push(command("commandchatList\n"));
    r.push(command("commandnoticeList\n"));
    assert(frames_view(r@) =~= joined_commands());
    r
}

/// Whether `s` holds exactly the characters of `lit`.
fn text_is(s: &String, lit: &str) -> (r: bool)
    ensures
        r == (s@ == lit@),
{
    *s == String::from_str(lit)
}

/// Moves `state` on by one received line and says what to do with the line
/// (see `decide_spec`). An `o` line needs a second field.
pub fn decide_line(state: &mut CurrentState, data: Vec<Message>) -> (r: LineAction)
    requires
        line_head(messages_view(data@)) == Some("o"@) ==> data@.len() >= 2,
    ensures
        (*final(state), r@) == decide_spec(*old(state), messages_view(data@)),
        line_head(messages_view(data@)) == Some("k"@) ==> *final(state) == *old(state) && r@
            == LineActionView::Key(messages_view(data@)),
{
    let ghost ms = messages_view(data@);
    // 0: other, 1: k, 2: o, 3: i1, 4: i2, 5: ERR
    let mut kind: u8 = 0;
    if data.len() > 0 {
        match &data[0] {
            Message::Text(v) => {
                if text_is(v, "k") {
                    kind = 1;
                } else if text_is(v, "o") {
                    kind = 2;
                } else if text_is(v, "i1") {
                    kind = 3;
                } else if text_is(v, "i2") {
                    kind = 4;
                } else if text_is(v, "ERR") {
                    kind = 5;
                }
            },
            _ => {},
        }
    }
    proof {
        reveal_strlit("k");
        reveal_strlit("o");
        reveal_strlit("i1");
        reveal_strlit("i2");
        reveal_strlit("ERR");
        if data@.len() > 0 {
            assert(ms[0] == data@[0]@);
        }
        lemma_line_reactions(*old(state), ms);
    }
    if kind == 1 {
        LineAction::Key(data)
    } else if kind == 2 {
        let mut data = data;
        data.remove(1);
        assert(messages_view(data@) =~= ms.remove(1));
        LineAction::Receive(data)
    } else if kind == 3 {
        *state = CurrentState::JoinProcess;
        LineAction::Nothing
    } else if kind == 4 {
        *state = CurrentState::Joined;
        LineAction::Send(joined_command_frames())
    } else if kind == 5 {
        LineAction::UChatErr(data)
    } else {
        LineAction::Receive(data)
    }
}

/// A websocket frame as the client sees it.
pub enum Frame {
    Binary(Vec<u8>),
    Text(String),
    Ping,
    Other,
}

/// What the client does with a frame.
pub enum FrameAction {
    /// Nothing.
    Skip,
    /// Answer with an empty pong.
    Pong,
    /// Handle these lines, in order.
    Lines(Vec<Vec<Message>>),
}

/// What a `FrameAction` stands for.
pub enum FrameActionView {
    Skip,
    Pong,
    Lines(Seq<Seq<MessageView>>),
}

/// The messages of lines of messages.
pub open spec fn message_lines_view(v: Seq<Vec<Message>>) -> Seq<Seq<MessageView>> {
    v.map_values(|l: Vec<Message>| messages_view(l@))
}

impl View for FrameAction {
    type V = FrameActionView;

    open spec fn view(&self) -> FrameActionView {
        match self {
            FrameAction::Skip => FrameActionView::Skip,
            FrameAction::Pong => FrameActionView::Pong,
            FrameAction::Lines(v) => FrameActionView::Lines(message_lines_view(v@)),
        }
    }
}

/// The unpacked lines, those that hold no message left out.
pub open spec fn nonempty_lines(lines: Seq<Seq<u8>>) -> Seq<Seq<MessageView>>
    decreases lines.len(),
{
    if lines.len() == 0 {
        Seq::empty()
    } else {
        let rest = nonempty_lines(lines.drop_last());
        let ms = unpack_spec(lines.last());
        if ms.len() == 0 {
            rest
        } else {
            rest.push(ms)
        }
    }
}

/// The lines of messages that a stream of bytes carries.
pub open spec fn stream_lines(s: Seq<u8>) -> Seq<Seq<MessageView>> {
    nonempty_lines(delimit_spec(s))
}

/// The lines of messages in `item`, which is left empty (see `stream_lines`).
pub fn incoming_lines(item: &mut BytesMut) -> (r: Vec<Vec<Message>>)
    ensures
        message_lines_view(r@) == stream_lines(bytes_mut_contents(*old(item))),
        bytes_mut_contents(*final(item)) == Seq::<u8>::empty(),
{
    let mut lines = delimit_line(item);
    let ghost lv = lines_view(lines@);
    let mut result: Vec<Vec<Message>> = Vec::new();
    let n = lines.len();
    let mut i: usize = 0;
    assert(message_lines_view(result@) =~= nonempty_lines(lv.take(0)));
    while i < n
        invariant
            i <= n,
            n == lv.len(),
            lines_view(lines@) == lv.skip(i as int),
            lines@.len() == n - i,
            message_lines_view(result@) == nonempty_lines(lv.take(i as int)),
        decreases n - i,
    {
        let ghost rest = lines@;
        let line = lines.remove(0);
        assert(lines_view(rest)[0] == bytes_mut_contents(line));
        assert(lv.skip(i as int)[0] == lv[i as int]);
        assert(lines@ =~= rest.subrange(1, rest.len() as int));
        assert forall|j: int| 0 <= j < lines@.len() implies lines_view(lines@)[j] == lv.skip(
            i + 1,
        )[j] by {
            assert(lines_view(rest)[j + 1] == lv.skip(i as int)[j + 1]);
        }
        assert(lines_view(lines@) =~= lv.skip(i + 1));
        let msgs = uMessage::unpack(line);
        let ghost before = message_lines_view(result@);
        assert(lv.take(i + 1).drop_last() =~= lv.take(i as int));
        if msgs.len() > 0 {
            let v = msgs.unwrap();
            result.push(v);
            assert(message_lines_view(result@) =~= before.push(messages_view(v@)));
        }
        i += 1;
    }
    assert(lv.take(n as int) =~= lv);
    result
}

/// What the client does with a frame: a non-empty binary frame or a text
/// frame is split into lines of messages, a ping is answered, anything else
/// is dropped.
pub fn handle_frame(frame: Frame) -> (r: FrameAction)
    ensures
        r@ == match frame {
            Frame::Binary(b) => if b@.len() == 0 {
                FrameActionView::Skip
            } else {
                FrameActionView::Lines(stream_lines(b@))
            },
            Frame::Text(t) => FrameActionView::Lines(stream_lines(encode_utf8(t@))),
            Frame::Ping => FrameActionView::Pong,
            Frame::Other => FrameActionView::Skip,
        },
{
    match frame {
        Frame::Binary(b) => {
            if b.len() == 0 {
                FrameAction::Skip
            } else {
                let mut item = bm_from_slice(b.as_slice());
                FrameAction::Lines(incoming_lines(&mut item))
            }
        },
        Frame::Text(t) => {
            let mut item = bm_from_slice(t.as_str().as_bytes());
            FrameAction::Lines(incoming_lines(&mut item))
        },
        Frame::Ping => FrameAction::Pong,
        Frame::Other => FrameAction::Skip,
    }
}

/// The keep-alive frame a client sends every 30 seconds: `p` and a newline.
pub fn ping_frame() -> (r: Vec<u8>)
    ensures
        r@ == seq![112u8, 10u8],
{
    let mut r: Vec<u8> = Vec::new();
    r.push(112);
    r.push(10);
    r
}

} // verus!
