//! The uchat wire format.
//!
//! A message is a type code (2 binary, 3 text, 4 boolean, 5 number, 6 none,
//! 7 float) followed by its field. Text, number and float fields put a
//! backslash before every byte below 8; binary fields go out raw. A line
//! holds a header text (the first message, without its type code) and the
//! encodings of the other messages; a frame is a line in which every newline
//! is preceded by a backslash, followed by a newline.
use vstd::prelude::*;
use vstd::utf8::{decode_utf8, encode_utf8, valid_utf8};
use bytes::{Bytes, BytesMut};
use crate::buffer::{
    bm_advance, bm_as_slice, bm_clear, bm_clone, bm_extend_from_slice, bm_freeze, bm_get_i16,
    bm_get_i32, bm_get_i64, bm_get_i8, bm_len, bm_new, bm_put_u8, bm_split, bm_with_capacity,
    bytes_as_slice,
    bytes_contents, bytes_mut_contents,
};
use crate::encoding::{
    be_bytes_i64, be_signed, escape_one, escaped, lemma_escaped_concat, lemma_escaped_push,
};
use crate::text::{string_from_utf8_lossy, utf8_lossy};

verus! {

/// A field of a line.
///
/// `Float` holds the decimal text of the number, the form in which it travels.
#[derive(Debug, Clone, PartialEq)]
pub enum Message {
    Text(String),
    Binary(Bytes),
    Boolean(bool),
    Number(i64),
    Float(String),
    Null,
}

/// What a `Message` stands for.
pub enum MessageView {
    Text(Seq<char>),
    Binary(Seq<u8>),
    Boolean(bool),
    Number(i64),
    Float(Seq<char>),
    Null,
}

impl View for Message {
    type V = MessageView;

    open spec fn view(&self) -> MessageView {
        match self {
            Message::Text(s) => MessageView::Text(s@),
            Message::Binary(b) => MessageView::Binary(bytes_contents(*b)),
            Message::Boolean(b) => MessageView::Boolean(*b),
            Message::Number(n) => MessageView::Number(*n),
            Message::Float(s) => MessageView::Float(s@),
            Message::Null => MessageView::Null,
        }
    }
}

/// The escape byte `\`.
pub open spec fn backslash() -> u8 {
    92
}

/// The line end `\n`.
pub open spec fn newline() -> u8 {
    10
}

/// Bytes that a field escapes: those below 8.
pub open spec fn control_byte() -> spec_fn(u8) -> bool {
    |b: u8| b < 8
}

/// Bytes that a frame escapes: the newline.
pub open spec fn newline_byte() -> spec_fn(u8) -> bool {
    |b: u8| b == 10
}

/// A field with a backslash before every byte below 8.
pub open spec fn field_escaped(s: Seq<u8>) -> Seq<u8> {
    escaped(s, control_byte(), backslash())
}

/// A line with a backslash before every newline.
pub open spec fn line_escaped(s: Seq<u8>) -> Seq<u8> {
    escaped(s, newline_byte(), backslash())
}

/// The type code that starts the encoding of a message.
pub open spec fn type_code(m: MessageView) -> u8 {
    match m {
        MessageView::Binary(_) => 2,
        MessageView::Text(_) => 3,
        MessageView::Boolean(_) => 4,
        MessageView::Number(_) => 5,
        MessageView::Null => 6,
        MessageView::Float(_) => 7,
    }
}

/// The bytes a field carries before escaping.
pub open spec fn raw_field(m: MessageView) -> Seq<u8> {
    match m {
        MessageView::Binary(v) => v,
        MessageView::Text(s) => encode_utf8(s),
        MessageView::Boolean(b) => seq![if b { 49u8 } else { 48u8 }],
        MessageView::Number(n) => be_bytes_i64(n),
        MessageView::Null => Seq::empty(),
        MessageView::Float(s) => encode_utf8(s),
    }
}

/// The bytes of a field as they are written after the type code.
pub open spec fn field_bytes(m: MessageView) -> Seq<u8> {
    match m {
        MessageView::Binary(v) => v,
        MessageView::Boolean(b) => seq![if b { 49u8 } else { 48u8 }],
        MessageView::Null => Seq::empty(),
        _ => field_escaped(raw_field(m)),
    }
}

/// The encoding of one message: its type code, then its field.
pub open spec fn encode(m: MessageView) -> Seq<u8> {
    seq![type_code(m)] + field_bytes(m)
}

/// The number that a number field holds, read by its length.
pub open spec fn number_field(d: Seq<u8>) -> i64 {
    if d.len() == 0 {
        0
    } else if d.len() == 2 {
        be_signed(d.take(2)) as i64
    } else if d.len() == 4 {
        be_signed(d.take(4)) as i64
    } else if d.len() == 8 {
        be_signed(d.take(8)) as i64
    } else {
        be_signed(d.take(1)) as i64
    }
}

/// How many bytes reading a number field consumes.
pub open spec fn number_width(d: Seq<u8>) -> nat {
    if d.len() == 0 {
        0
    } else if d.len() == 2 || d.len() == 4 || d.len() == 8 {
        d.len()
    } else {
        1
    }
}

/// The text that field bytes hold: their UTF-8 decoding when they are valid.
pub open spec fn text_field(d: Seq<u8>) -> Seq<char> {
    if valid_utf8(d) {
        decode_utf8(d)
    } else {
        utf8_lossy(d)
    }
}

/// The message that an unescaped field of the given type code stands for.
pub open spec fn decode_field(code: u8, d: Seq<u8>) -> MessageView {
    if code == 2 {
        MessageView::Binary(d)
    } else if code == 3 {
        MessageView::Text(text_field(d))
    } else if code == 4 {
        MessageView::Boolean(d.len() > 0 && d[0] == 49)
    } else if code == 5 {
        MessageView::Number(number_field(d))
    } else if code == 7 {
        MessageView::Float(text_field(d))
    } else {
        MessageView::Null
    }
}

/// Reads a line from its start: `mode` is the type code of the field being
/// read, `field` its bytes so far, `done` the messages already complete.
pub open spec fn scan(s: Seq<u8>, mode: u8, field: Seq<u8>, done: Seq<MessageView>) -> Seq<
    MessageView,
>
    decreases s.len(),
{
    if s.len() == 0 {
        done.push(decode_field(mode, field))
    } else if s[0] == backslash() {
        if s.len() > 1 {
            scan(s.skip(2), mode, field.push(s[1]), done)
        } else {
            scan(s.skip(1), mode, field.push(backslash()), done)
        }
    } else if 1 < s[0] < 8 {
        scan(s.skip(1), s[0], Seq::empty(), done.push(decode_field(mode, field)))
    } else {
        scan(s.skip(1), mode, field.push(s[0]), done)
    }
}

/// The messages of a line; the first field, before any type code, is text.
pub open spec fn unpack_spec(s: Seq<u8>) -> Seq<MessageView> {
    if s.len() == 0 {
        Seq::empty()
    } else {
        scan(s, 3, Seq::empty(), Seq::empty())
    }
}

/// The encodings of all messages, one after the other.
pub open spec fn encode_all(ms: Seq<MessageView>) -> Seq<u8>
    decreases ms.len(),
{
    if ms.len() == 0 {
        Seq::empty()
    } else {
        encode_all(ms.drop_last()) + encode(ms.last())
    }
}

/// The line that packing the messages produces: the first message without its
/// type code, then the encodings of the others. Fewer than two messages give
/// an empty line.
pub open spec fn pack_body(ms: Seq<MessageView>) -> Seq<u8> {
    if ms.len() < 2 {
        Seq::empty()
    } else {
        encode(ms[0]).drop_first() + encode_all(ms.drop_first())
    }
}

/// The frame that packing the messages produces.
pub open spec fn pack_spec(ms: Seq<MessageView>) -> Seq<u8> {
    line_escaped(pack_body(ms)).push(newline())
}

/// Splits a byte stream at newlines: `line` holds the bytes of the current
/// line, `done` the lines already complete. A backslash before a newline puts
/// the newline into the current line; that newline then still ends the line.
pub open spec fn split_lines(s: Seq<u8>, line: Seq<u8>, done: Seq<Seq<u8>>) -> Seq<Seq<u8>>
    decreases s.len(),
{
    if s.len() == 0 {
        if line.len() > 0 {
            done.push(line)
        } else {
            done
        }
    } else if s[0] == backslash() {
        if s.len() > 1 && s[1] == newline() {
            split_lines(s.skip(1), line.push(newline()), done)
        } else {
            split_lines(s.skip(1), line.push(backslash()), done)
        }
    } else if s[0] == newline() {
        split_lines(s.skip(1), Seq::empty(), done.push(line))
    } else {
        split_lines(s.skip(1), line.push(s[0]), done)
    }
}

/// The lines of a byte stream.
pub open spec fn delimit_spec(s: Seq<u8>) -> Seq<Seq<u8>> {
    split_lines(s, Seq::empty(), Seq::empty())
}

/// What a vector of buffers holds, buffer by buffer.
pub open spec fn lines_view(v: Seq<BytesMut>) -> Seq<Seq<u8>> {
    v.map_values(|b: BytesMut| bytes_mut_contents(b))
}

/// Splits `buf` into its lines (see `split_lines`) and leaves it empty.
pub fn delimit_line(buf: &mut BytesMut) -> (r: Vec<BytesMut>)
    ensures
        lines_view(r@) == delimit_spec(bytes_mut_contents(*old(buf))),
        bytes_mut_contents(*final(buf)) == Seq::<u8>::empty(),
{
    let ghost s0 = bytes_mut_contents(*buf);
    let mut result: Vec<BytesMut> = Vec::new();
    let mut tmp = bm_with_capacity(bm_len(buf));
    assert(lines_view(result@) =~= Seq::<Seq<u8>>::empty());
    while bm_len(buf) > 0
        invariant
            split_lines(bytes_mut_contents(*buf), bytes_mut_contents(tmp), lines_view(result@))
                == split_lines(s0, Seq::empty(), Seq::empty()),
        decreases bytes_mut_contents(*buf).len(),
    {
        let first = bm_as_slice(buf)[0];
        if first == 92 {
            if bm_len(buf) > 1 && bm_as_slice(buf)[1] == 10 {
                bm_put_u8(&mut tmp, 10);
                bm_advance(buf, 1);
                continue;
            } else {
                bm_put_u8(&mut tmp, 92);
            }
        } else if first == 10 {
            let ghost done = lines_view(result@);
            let line = bm_split(&mut tmp);
            result.push(line);
            assert(lines_view(result@) =~= done.push(bytes_mut_contents(line)));
        } else {
            bm_put_u8(&mut tmp, first);
        }
        bm_advance(buf, 1);
    }
    if bm_len(&tmp) > 0 {
        let ghost done = lines_view(result@);
        let line = bm_split(&mut tmp);
        result.push(line);
        assert(lines_view(result@) =~= done.push(bytes_mut_contents(line)));
    }
    result
}

/// Appends `b` to `buf`, with `escape_char` before every byte of which `condition` holds.
fn escape<F: Fn(&u8) -> bool>(
    b: &[u8],
    buf: &mut BytesMut,
    condition: F,
    escape_char: u8,
    Ghost(pred): Ghost<spec_fn(u8) -> bool>,
)
    requires
        forall|x: u8| condition.requires((&x,)),
        forall|x: u8, r: bool| condition.ensures((&x,), r) ==> r == pred(x),
    ensures
        bytes_mut_contents(*final(buf)) == bytes_mut_contents(*old(buf)) + escaped(
            b@,
            pred,
            escape_char,
        ),
{
    let ghost start = bytes_mut_contents(*buf);
    let mut i: usize = 0;
    while i < b.len()
        invariant
            i <= b@.len(),
            forall|x: u8| condition.requires((&x,)),
            forall|x: u8, r: bool| condition.ensures((&x,), r) ==> r == pred(x),
            bytes_mut_contents(*buf) == start + escaped(b@.take(i as int), pred, escape_char),
        decreases b@.len() - i,
    {
        let item = b[i];
        let ghost before = bytes_mut_contents(*buf);
        if condition(&item) {
            bm_put_u8(buf, escape_char);
        }
        bm_put_u8(buf, item);
        proof {
            lemma_escaped_push(b@.take(i as int), item, pred, escape_char);
            assert(b@.take(i + 1) =~= b@.take(i as int).push(item));
            assert(bytes_mut_contents(*buf) =~= before + escape_one(item, pred, escape_char));
        }
        i += 1;
    }
    assert(b@.take(i as int) =~= b@);
}

impl Message {
    /// Appends the encoding of this message to `buf`.
    pub fn append(&self, buf: &mut BytesMut)
        ensures
            bytes_mut_contents(*final(buf)) == bytes_mut_contents(*old(buf)) + encode(self@),
    {
        let ghost start = bytes_mut_contents(*buf);
        let condition = |b: &u8| -> (r: bool)
            ensures
                r == (*b < 8),
            { *b < 8 };
        match self {
            Message::Binary(v) => {
                bm_put_u8(buf, 2);
                bm_extend_from_slice(buf, bytes_as_slice(v));
            },
            Message::Text(s) => {
                bm_put_u8(buf, 3);
                escape(s.as_str().as_bytes(), buf, condition, 92, Ghost(control_byte()));
            },
            Message::Boolean(b) => {
                bm_put_u8(buf, 4);
                if *b {
                    bm_put_u8(buf, 49);
                } else {
                    bm_put_u8(buf, 48);
                }
            },
            Message::Number(i) => {
                bm_put_u8(buf, 5);
                let be = crate::encoding::i64_to_be_bytes(*i);
                escape(be.as_slice(), buf, condition, 92, Ghost(control_byte()));
            },
            Message::Null => bm_put_u8(buf, 6),
            Message::Float(f) => {
                bm_put_u8(buf, 7);
                escape(f.as_str().as_bytes(), buf, condition, 92, Ghost(control_byte()));
            },
        }
        assert(bytes_mut_contents(*buf) =~= start + encode(self@));
    }

    /// The message that the unescaped field `data` of type `code` stands for.
    ///
    /// A number field is read by its length (2, 4 or 8 bytes as that many
    /// big-endian bytes, none as 0, any other length by its first byte); the
    /// bytes read leave `data`. Text and float fields are decoded as UTF-8;
    /// bytes that are not valid UTF-8 come out with replacement characters.
    /// Unknown codes give `Message::Null`.
    pub fn wrap(code: u8, data: &mut BytesMut) -> (r: Message)
        ensures
            r@ == decode_field(code, bytes_mut_contents(*old(data))),
            bytes_mut_contents(*final(data)) == if code == 5 {
                bytes_mut_contents(*old(data)).skip(number_width(bytes_mut_contents(*old(data))) as int)
            } else {
                bytes_mut_contents(*old(data))
            },
            code == 5 && (bytes_mut_contents(*old(data)).len() == 2 || bytes_mut_contents(
                *old(data),
            ).len() == 4 || bytes_mut_contents(*old(data)).len() == 8) ==> r@ == MessageView::Number(
                be_signed(bytes_mut_contents(*old(data))) as i64,
            ),
    {
        let ghost d = bytes_mut_contents(*data);
        assert(d.len() == 2 ==> d.take(2) =~= d);
        assert(d.len() == 4 ==> d.take(4) =~= d);
        assert(d.len() == 8 ==> d.take(8) =~= d);
        if code == 2 {
            Message::Binary(bm_freeze(bm_clone(data)))
        } else if code == 3 {
            Message::Text(string_from_utf8_lossy(bm_as_slice(data)))
        } else if code == 4 {
            let s = bm_as_slice(data);
            if s.len() > 0 && s[0] == 49 {
                Message::Boolean(true)
            } else {
                Message::Boolean(false)
            }
        } else if code == 5 {
            let n = bm_len(data);
            if n == 0 {
                Message::Number(0)
            } else if n == 2 {
                Message::Number(bm_get_i16(data) as i64)
            } else if n == 4 {
                Message::Number(bm_get_i32(data) as i64)
            } else if n == 8 {
                Message::Number(bm_get_i64(data))
            } else {
                Message::Number(bm_get_i8(data) as i64)
            }
        } else if code == 7 {
            Message::Float(string_from_utf8_lossy(bm_as_slice(data)))
        } else {
            Message::Null
        }
    }
}

/// The messages of one line.
#[derive(Debug)]
pub struct uMessage {
    inner: Vec<Message>,
}

/// The views of a vector of messages.
pub open spec fn messages_view(v: Seq<Message>) -> Seq<MessageView> {
    v.map_values(|m: Message| m@)
}

impl View for uMessage {
    type V = Seq<MessageView>;

    closed spec fn view(&self) -> Seq<MessageView> {
        messages_view(self.inner@)
    }
}

impl uMessage {
    /// A line without messages.
    pub fn new() -> (r: Self)
        ensures
            r@ == Seq::<MessageView>::empty(),
    {
        let r = uMessage { inner: Vec::new() };
        assert(r@ =~= Seq::<MessageView>::empty());
        r
    }

    /// The messages of the line `buf` (see `unpack_spec`).
    pub fn unpack(buf: BytesMut) -> (r: Self)
        ensures
            r@ == unpack_spec(bytes_mut_contents(buf)),
    {
        let ghost s0 = bytes_mut_contents(buf);
        let mut buf = buf;
        let mut inner: Vec<Message> = Vec::new();
        if bm_len(&buf) > 0 {
            let mut tmp = bm_with_capacity(bm_len(&buf));
            let mut mode: u8 = 3;
            assert(messages_view(inner@) =~= Seq::<MessageView>::empty());
            while bm_len(&buf) > 0
                invariant
                    scan(
                        bytes_mut_contents(buf),
                        mode,
                        bytes_mut_contents(tmp),
                        messages_view(inner@),
                    ) == scan(s0, 3, Seq::empty(), Seq::empty()),
                decreases bytes_mut_contents(buf).len(),
            {
                let ghost s = bytes_mut_contents(buf);
                let first = bm_as_slice(&buf)[0];
                if first == 92 {
                    if bm_len(&buf) > 1 {
                        let next = bm_as_slice(&buf)[1];
                        bm_put_u8(&mut tmp, next);
                        bm_advance(&mut buf, 1);
                    } else {
                        bm_put_u8(&mut tmp, 92);
                    }
                } else if first > 1 && first < 8 {
                    let ghost done = messages_view(inner@);
                    let m = Message::wrap(mode, &mut tmp);
                    inner.push(m);
                    bm_clear(&mut tmp);
                    mode = first;
                    proof {
                        assert(messages_view(inner@) =~= done.push(m@));
                    }
                } else {
                    bm_put_u8(&mut tmp, first);
                }
                bm_advance(&mut buf, 1);
                proof {
                    assert(bytes_mut_contents(buf) =~= s.skip(if first == 92 && s.len() > 1 {
                        2int
                    } else {
                        1int
                    }));
                }
            }
            let ghost done = messages_view(inner@);
            let m = Message::wrap(mode, &mut tmp);
            inner.push(m);
            bm_clear(&mut tmp);
            proof {
                assert(messages_view(inner@) =~= done.push(m@));
            }
        } else {
            assert(messages_view(inner@) =~= Seq::<MessageView>::empty());
        }
        uMessage { inner }
    }

    /// The number of messages.
    pub fn len(&self) -> (r: usize)
        ensures
            r == self@.len(),
    {
        self.inner.len()
    }

    /// Adds a message at the end.
    pub fn push(&mut self, msg: Message)
        ensures
            final(self)@ == old(self)@.push(msg@),
    {
        let ghost before = self@;
        self.inner.push(msg);
        assert(self@ =~= before.push(msg@));
    }

    /// The frame of this line: the first message without its type code, then
    /// the encodings of the others, every newline escaped, and a final newline.
    /// With fewer than two messages the frame is a bare newline.
    pub fn pack(self) -> (r: Bytes)
        ensures
            bytes_contents(r) == pack_spec(self@),
    {
        let ghost ms = self@;
        let mut inner = self.inner;
        let mut b = bm_new();
        let mut escape_buf = bm_with_capacity(128);
        if inner.len() > 0 {
            let first = inner.remove(0);
            first.append(&mut escape_buf);
            bm_advance(&mut escape_buf, 1);
            let ghost header = encode(ms[0]).drop_first();
            let ghost rest = ms.drop_first();
            assert(messages_view(inner@) =~= rest);
            let mut i: usize = 0;
            while i < inner.len()
                invariant
                    i <= inner@.len(),
                    messages_view(inner@) == rest,
                    i == 0 ==> bytes_mut_contents(escape_buf) == header && bytes_mut_contents(b)
                        == Seq::<u8>::empty(),
                    i > 0 ==> bytes_mut_contents(escape_buf) == Seq::<u8>::empty()
                        && bytes_mut_contents(b) == line_escaped(
                        header + encode_all(rest.take(i as int)),
                    ),
                decreases inner@.len() - i,
            {
                let ghost e = bytes_mut_contents(escape_buf);
                let ghost b0 = bytes_mut_contents(b);
                inner[i].append(&mut escape_buf);
                let is_newline = |x: &u8| -> (r: bool)
                    ensures
                        r == (*x == 10),
                    { *x == 10 };
                escape(bm_as_slice(&escape_buf), &mut b, is_newline, 92, Ghost(newline_byte()));
                bm_clear(&mut escape_buf);
                proof {
                    let m = rest[i as int];
                    assert(inner@[i as int]@ == m);
                    assert(rest.take(i + 1).drop_last() =~= rest.take(i as int));
                    assert(encode_all(rest.take(i + 1)) == encode_all(rest.take(i as int)) + encode(m));
                    if i == 0 {
                        assert(rest.take(0) =~= Seq::<MessageView>::empty());
                        assert(encode_all(rest.take(1)) =~= encode(m));
                        assert(b0 + line_escaped(e + encode(m)) =~= line_escaped(e + encode(m)));
                    } else {
                        let acc = header + encode_all(rest.take(i as int));
                        lemma_escaped_concat(acc, encode(m), newline_byte(), backslash());
                        assert(e + encode(m) =~= encode(m));
                        assert(acc + encode(m) =~= header + encode_all(rest.take(i + 1)));
                    }
                }
                i += 1;
            }
            proof {
                assert(rest.take(i as int) =~= rest);
                if i == 0 {
                    assert(line_escaped(pack_body(ms)) =~= Seq::<u8>::empty());
                }
            }
        } else {
            assert(line_escaped(pack_body(ms)) =~= Seq::<u8>::empty());
        }
        bm_put_u8(&mut b, 10);
        bm_freeze(b)
    }

    /// The messages, in order.
    pub fn unwrap(self) -> (r: Vec<Message>)
        ensures
            messages_view(r@) == self@,
    {
        self.inner
    }
}

} // verus!
