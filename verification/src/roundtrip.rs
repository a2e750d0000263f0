//! What the wire format guarantees: messages packed into a frame come back,
//! after splitting the stream into lines and unpacking the line, unchanged.
use vstd::prelude::*;
use vstd::utf8::{decode_utf8, encode_utf8, valid_utf8};
use crate::encoding::{
    be_bytes, be_bytes_i64, be_signed, escape_one, escaped, lemma_be_bytes_i64,
    lemma_be_bytes_signed, lemma_escaped_concat, pow256,
};
use crate::protocol::{
    backslash, control_byte, decode_field, delimit_spec, encode, encode_all, field_bytes,
    field_escaped, line_escaped, newline, newline_byte, pack_body, pack_spec, raw_field, scan,
    split_lines, text_field, type_code, unpack_spec, MessageView,
};

verus! {

broadcast use vstd::utf8::group_utf8_lib;

/// `b` occurs nowhere in `s`.
pub open spec fn lacks(s: Seq<u8>, b: u8) -> bool {
    forall|i: int| 0 <= i < s.len() ==> s[i] != b
}

/// A message whose encoding survives the trip through a frame: its field
/// holds no backslash and no newline, and a binary field holds no type code
/// (bytes 2 to 7) either.
pub open spec fn wire_safe(m: MessageView) -> bool {
    &&& lacks(raw_field(m), backslash())
    &&& lacks(raw_field(m), newline())
    &&& (m matches MessageView::Binary(v) ==> forall|i: int|
        0 <= i < v.len() ==> !(2 <= #[trigger] v[i] <= 7))
}

/// Messages that a frame carries back unchanged: at least two, the first a
/// text (it becomes the header of the line), all of them wire-safe.
pub open spec fn packable(ms: Seq<MessageView>) -> bool {
    &&& ms.len() >= 2
    &&& ms[0] is Text
    &&& forall|i: int| 0 <= i < ms.len() ==> wire_safe(#[trigger] ms[i])
}

/// `encode_all` read from the front.
pub proof fn lemma_encode_all_front(ms: Seq<MessageView>)
    requires
        ms.len() > 0,
    ensures
        encode_all(ms) == encode(ms[0]) + encode_all(ms.drop_first()),
    decreases ms.len(),
{
    if ms.len() == 1 {
        assert(ms.drop_last() =~= Seq::<MessageView>::empty());
        assert(ms.drop_first() =~= Seq::<MessageView>::empty());
        assert(encode_all(ms) =~= encode(ms[0]) + encode_all(ms.drop_first()));
    } else {
        lemma_encode_all_front(ms.drop_last());
        assert(ms.drop_last().drop_first() =~= ms.drop_first().drop_last());
        assert(ms.drop_first().last() == ms.last());
        assert(encode_all(ms) =~= encode(ms[0]) + encode_all(ms.drop_first()));
    }
}

/// Escaping never adds a byte other than the escape byte.
pub proof fn lemma_escaped_lacks(x: Seq<u8>, pred: spec_fn(u8) -> bool, esc: u8, b: u8)
    requires
        b != esc,
        lacks(x, b),
    ensures
        lacks(escaped(x, pred, esc), b),
    decreases x.len(),
{
    if x.len() > 0 {
        assert(lacks(x.drop_first(), b)) by {
            assert forall|i: int| 0 <= i < x.drop_first().len() implies x.drop_first()[i] != b by {
                assert(x.drop_first()[i] == x[i + 1]);
            }
        }
        lemma_escaped_lacks(x.drop_first(), pred, esc, b);
        assert(x[0] != b);
        let e = escaped(x, pred, esc);
        let one = escape_one(x[0], pred, esc);
        let tail = escaped(x.drop_first(), pred, esc);
        assert forall|i: int| 0 <= i < e.len() implies e[i] != b by {
            if i < one.len() {
                assert(e[i] == one[i]);
            } else {
                assert(e[i] == tail[i - one.len()]);
            }
        }
    }
}

/// An escaped sequence ends with the last byte of the original.
pub proof fn lemma_escaped_last(x: Seq<u8>, pred: spec_fn(u8) -> bool, esc: u8)
    requires
        x.len() > 0,
    ensures
        escaped(x, pred, esc).len() > 0,
        escaped(x, pred, esc).last() == x.last(),
    decreases x.len(),
{
    let one = escape_one(x[0], pred, esc);
    if x.len() == 1 {
        assert(x.drop_first() =~= Seq::<u8>::empty());
        assert(escaped(x.drop_first(), pred, esc) =~= Seq::<u8>::empty());
        assert(escaped(x, pred, esc) =~= one);
    } else {
        lemma_escaped_last(x.drop_first(), pred, esc);
        assert(x.drop_first().last() == x.last());
    }
}

/// Escaping a sequence without newlines changes nothing.
pub proof fn lemma_line_escaped_plain(x: Seq<u8>)
    requires
        lacks(x, newline()),
    ensures
        line_escaped(x) == x,
    decreases x.len(),
{
    if x.len() > 0 {
        assert(lacks(x.drop_first(), newline())) by {
            assert forall|i: int| 0 <= i < x.drop_first().len() implies x.drop_first()[i] != 10 by {
                assert(x.drop_first()[i] == x[i + 1]);
            }
        }
        lemma_line_escaped_plain(x.drop_first());
        assert(x[0] != 10);
        assert(line_escaped(x) =~= seq![x[0]] + x.drop_first());
        assert(seq![x[0]] + x.drop_first() =~= x);
    }
}

/// Reading an escaped field without backslashes yields the field itself.
pub proof fn lemma_scan_escaped(
    x: Seq<u8>,
    rest: Seq<u8>,
    mode: u8,
    field: Seq<u8>,
    done: Seq<MessageView>,
)
    requires
        lacks(x, backslash()),
    ensures
        scan(field_escaped(x) + rest, mode, field, done) == scan(rest, mode, field + x, done),
    decreases x.len(),
{
    if x.len() == 0 {
        assert(field_escaped(x) + rest =~= rest);
        assert(field + x =~= field);
    } else {
        let x0 = x[0];
        let xs = x.drop_first();
        assert(lacks(xs, backslash())) by {
            assert forall|i: int| 0 <= i < xs.len() implies xs[i] != 92 by {
                assert(xs[i] == x[i + 1]);
            }
        }
        lemma_scan_escaped(xs, rest, mode, field.push(x0), done);
        assert(field.push(x0) + xs =~= field + x);
        let s = field_escaped(x) + rest;
        assert(field_escaped(x) == escape_one(x0, control_byte(), backslash()) + field_escaped(xs));
        if x0 < 8 {
            assert(s =~= seq![92u8, x0] + (field_escaped(xs) + rest));
            assert(s.skip(2) =~= field_escaped(xs) + rest);
        } else {
            assert(s =~= seq![x0] + (field_escaped(xs) + rest));
            assert(s.skip(1) =~= field_escaped(xs) + rest);
        }
    }
}

/// Reading bytes that hold no backslash and no type code yields them unchanged.
pub proof fn lemma_scan_plain(
    v: Seq<u8>,
    rest: Seq<u8>,
    mode: u8,
    field: Seq<u8>,
    done: Seq<MessageView>,
)
    requires
        lacks(v, backslash()),
        forall|i: int| 0 <= i < v.len() ==> !(2 <= #[trigger] v[i] <= 7),
    ensures
        scan(v + rest, mode, field, done) == scan(rest, mode, field + v, done),
    decreases v.len(),
{
    if v.len() == 0 {
        assert(v + rest =~= rest);
        assert(field + v =~= field);
    } else {
        let vs = v.drop_first();
        assert(lacks(vs, backslash())) by {
            assert forall|i: int| 0 <= i < vs.len() implies vs[i] != 92 by {
                assert(vs[i] == v[i + 1]);
            }
        }
        assert forall|i: int| 0 <= i < vs.len() implies !(2 <= #[trigger] vs[i] <= 7) by {
            assert(vs[i] == v[i + 1]);
        }
        assert(!(2 <= v[0] <= 7));
        lemma_scan_plain(vs, rest, mode, field.push(v[0]), done);
        assert(field.push(v[0]) + vs =~= field + v);
        assert((v + rest).skip(1) =~= vs + rest);
    }
}

/// Reading the field of a wire-safe message yields its raw bytes.
pub proof fn lemma_scan_field(
    m: MessageView,
    rest: Seq<u8>,
    mode: u8,
    field: Seq<u8>,
    done: Seq<MessageView>,
)
    requires
        wire_safe(m),
    ensures
        scan(field_bytes(m) + rest, mode, field, done) == scan(rest, mode, field + raw_field(m), done),
{
    match m {
        MessageView::Binary(v) => {
            lemma_scan_plain(v, rest, mode, field, done);
        },
        MessageView::Boolean(b) => {
            let v = raw_field(m);
            assert forall|i: int| 0 <= i < v.len() implies !(2 <= #[trigger] v[i] <= 7) by {}
            lemma_scan_plain(v, rest, mode, field, done);
        },
        MessageView::Null => {
            assert(field_bytes(m) + rest =~= rest);
            assert(field + raw_field(m) =~= field);
        },
        _ => {
            lemma_scan_escaped(raw_field(m), rest, mode, field, done);
        },
    }
}

/// The raw field of a message decodes back to the message.
pub proof fn lemma_decode_raw(m: MessageView)
    ensures
        decode_field(type_code(m), raw_field(m)) == m,
{
    match m {
        MessageView::Number(n) => {
            lemma_be_bytes_i64(n);
            assert(be_bytes_i64(n).take(8) =~= be_bytes_i64(n));
        },
        MessageView::Text(s) => {
            assert(vstd::utf8::valid_utf8(encode_utf8(s)));
        },
        MessageView::Float(s) => {
            assert(vstd::utf8::valid_utf8(encode_utf8(s)));
        },
        _ => {},
    }
}

/// A field with every escape undone: a backslash and the byte after it give
/// that byte; a backslash at the end stays.
pub open spec fn unescape(s: Seq<u8>) -> Seq<u8>
    decreases s.len(),
{
    if s.len() == 0 {
        Seq::empty()
    } else if s[0] == backslash() && s.len() > 1 {
        seq![s[1]] + unescape(s.skip(2))
    } else {
        seq![s[0]] + unescape(s.skip(1))
    }
}

/// Undoing the escapes of bytes without backslashes changes nothing.
pub proof fn lemma_unescape_plain(v: Seq<u8>)
    requires
        lacks(v, backslash()),
    ensures
        unescape(v) == v,
    decreases v.len(),
{
    if v.len() > 0 {
        let vs = v.skip(1);
        assert(lacks(vs, backslash())) by {
            assert forall|i: int| 0 <= i < vs.len() implies vs[i] != 92 by {
                assert(vs[i] == v[i + 1]);
            }
        }
        lemma_unescape_plain(vs);
        assert(seq![v[0]] + vs =~= v);
    }
}

/// Undoing the escapes of an escaped field without backslashes gives the field.
pub proof fn lemma_unescape_escaped(x: Seq<u8>)
    requires
        lacks(x, backslash()),
    ensures
        unescape(field_escaped(x)) == x,
    decreases x.len(),
{
    if x.len() > 0 {
        let x0 = x[0];
        let xs = x.drop_first();
        assert(lacks(xs, backslash())) by {
            assert forall|i: int| 0 <= i < xs.len() implies xs[i] != 92 by {
                assert(xs[i] == x[i + 1]);
            }
        }
        lemma_unescape_escaped(xs);
        let e = field_escaped(x);
        assert(e == escape_one(x0, control_byte(), backslash()) + field_escaped(xs));
        if x0 < 8 {
            assert(e =~= seq![92u8, x0] + field_escaped(xs));
            assert(e.skip(2) =~= field_escaped(xs));
        } else {
            assert(e =~= seq![x0] + field_escaped(xs));
            assert(e.skip(1) =~= field_escaped(xs));
        }
        assert(seq![x0] + xs =~= x);
    }
}

/// Law: reading back what `append` wrote, with the escapes undone, gives the
/// message again, for every message whose field holds no backslash.
pub proof fn lemma_wrap_inverts_append(m: MessageView)
    requires
        lacks(raw_field(m), backslash()),
    ensures
        decode_field(encode(m)[0], unescape(encode(m).drop_first())) == m,
{
    let e = encode(m);
    assert(e.drop_first() =~= field_bytes(m));
    assert(e[0] == type_code(m));
    match m {
        MessageView::Binary(v) => {
            lemma_unescape_plain(v);
        },
        MessageView::Boolean(_) => {
            lemma_unescape_plain(raw_field(m));
        },
        MessageView::Null => {
            assert(unescape(field_bytes(m)) =~= raw_field(m));
        },
        _ => {
            lemma_unescape_escaped(raw_field(m));
        },
    }
    lemma_decode_raw(m);
}

/// Reading the encodings of wire-safe messages yields the messages.
pub proof fn lemma_scan_all(ms: Seq<MessageView>, mode: u8, field: Seq<u8>, done: Seq<MessageView>)
    requires
        forall|i: int| 0 <= i < ms.len() ==> wire_safe(#[trigger] ms[i]),
    ensures
        scan(encode_all(ms), mode, field, done) == done.push(decode_field(mode, field)) + ms,
    decreases ms.len(),
{
    if ms.len() == 0 {
        assert(done.push(decode_field(mode, field)) + ms =~= done.push(decode_field(mode, field)));
    } else {
        let m = ms[0];
        let rest = ms.drop_first();
        assert(wire_safe(m));
        assert forall|i: int| 0 <= i < rest.len() implies wire_safe(#[trigger] rest[i]) by {
            assert(rest[i] == ms[i + 1]);
        }
        lemma_encode_all_front(ms);
        let c = type_code(m);
        let s = encode_all(ms);
        assert(s =~= seq![c] + (field_bytes(m) + encode_all(rest)));
        assert(s.skip(1) =~= field_bytes(m) + encode_all(rest));
        let done2 = done.push(decode_field(mode, field));
        lemma_scan_field(m, encode_all(rest), c, Seq::empty(), done2);
        assert(Seq::<u8>::empty() + raw_field(m) =~= raw_field(m));
        lemma_scan_all(rest, c, raw_field(m), done2);
        lemma_decode_raw(m);
        assert(done2.push(m) + rest =~= done2 + ms);
    }
}

/// A packed line of packable messages unpacks to the same messages.
pub proof fn lemma_unpack_pack_body(ms: Seq<MessageView>)
    requires
        packable(ms),
    ensures
        unpack_spec(pack_body(ms)) == ms,
{
    let m = ms[0];
    let rest = ms.drop_first();
    assert(wire_safe(m));
    assert forall|i: int| 0 <= i < rest.len() implies wire_safe(#[trigger] rest[i]) by {
        assert(rest[i] == ms[i + 1]);
    }
    assert(encode(m).drop_first() =~= field_bytes(m));
    lemma_encode_all_front(rest);
    let body = pack_body(ms);
    assert(body.len() > 0);
    lemma_scan_field(m, encode_all(rest), 3, Seq::empty(), Seq::empty());
    assert(Seq::<u8>::empty() + raw_field(m) =~= raw_field(m));
    lemma_scan_all(rest, 3, raw_field(m), Seq::empty());
    lemma_decode_raw(m);
    assert(Seq::<MessageView>::empty().push(m) + rest =~= ms);
}

/// Splitting a newline-free line that does not end in a backslash, followed by
/// a newline, ends exactly that line.
pub proof fn lemma_split_line(x: Seq<u8>, rest: Seq<u8>, line: Seq<u8>, done: Seq<Seq<u8>>)
    requires
        lacks(x, newline()),
        x.len() == 0 || x.last() != backslash(),
    ensures
        split_lines(x.push(newline()) + rest, line, done) == split_lines(
            rest,
            Seq::empty(),
            done.push(line + x),
        ),
    decreases x.len(),
{
    let s = x.push(newline()) + rest;
    if x.len() == 0 {
        assert(s.skip(1) =~= rest);
        assert(line + x =~= line);
    } else {
        let xs = x.drop_first();
        assert(lacks(xs, newline())) by {
            assert forall|i: int| 0 <= i < xs.len() implies xs[i] != 10 by {
                assert(xs[i] == x[i + 1]);
            }
        }
        if xs.len() > 0 {
            assert(xs.last() == x.last());
        }
        lemma_split_line(xs, rest, line.push(x[0]), done);
        assert(line.push(x[0]) + xs =~= line + x);
        assert(s.skip(1) =~= xs.push(newline()) + rest);
        assert(s[0] == x[0]);
        if x[0] == 92 {
            assert(xs.len() > 0);
            assert(s[1] == xs[0]);
        }
    }
}

/// The encodings of wire-safe messages hold no newline.
proof fn lemma_encode_all_lacks_newline(ms: Seq<MessageView>)
    requires
        forall|i: int| 0 <= i < ms.len() ==> wire_safe(#[trigger] ms[i]),
    ensures
        lacks(encode_all(ms), newline()),
    decreases ms.len(),
{
    if ms.len() > 0 {
        let m = ms.last();
        assert(wire_safe(ms[ms.len() - 1]));
        let init = ms.drop_last();
        assert forall|i: int| 0 <= i < init.len() implies wire_safe(#[trigger] init[i]) by {
            assert(init[i] == ms[i]);
        }
        lemma_encode_all_lacks_newline(init);
        lemma_field_lacks_newline(m);
        let a = encode_all(init);
        let e = encode(m);
        assert forall|i: int| 0 <= i < e.len() implies e[i] != 10 by {
            if i > 0 {
                assert(e[i] == field_bytes(m)[i - 1]);
            }
        }
        let t = a + e;
        assert forall|i: int| 0 <= i < t.len() implies t[i] != 10 by {
            if i < a.len() {
                assert(t[i] == a[i]);
            } else {
                assert(t[i] == e[i - a.len()]);
            }
        }
    }
}

/// The field of a wire-safe message holds no newline.
proof fn lemma_field_lacks_newline(m: MessageView)
    requires
        wire_safe(m),
    ensures
        lacks(field_bytes(m), newline()),
{
    match m {
        MessageView::Binary(_) => {},
        MessageView::Boolean(_) => {},
        MessageView::Null => {},
        _ => {
            lemma_escaped_lacks(raw_field(m), control_byte(), backslash(), newline());
        },
    }
}

/// The field of a wire-safe message, when not empty, does not end in a backslash.
proof fn lemma_field_end(m: MessageView)
    requires
        wire_safe(m),
    ensures
        field_bytes(m).len() > 0 ==> field_bytes(m).last() != backslash(),
{
    match m {
        MessageView::Binary(v) => {
            if v.len() > 0 {
                assert(v[v.len() - 1] != 92);
            }
        },
        MessageView::Boolean(_) => {},
        MessageView::Null => {},
        _ => {
            let x = raw_field(m);
            if x.len() > 0 {
                lemma_escaped_last(x, control_byte(), backslash());
                assert(x[x.len() - 1] != 92);
            } else {
                assert(field_escaped(x) =~= Seq::<u8>::empty());
            }
        },
    }
}

/// The line of packable messages holds no newline and does not end in a backslash.
proof fn lemma_pack_body_plain(ms: Seq<MessageView>)
    requires
        packable(ms),
    ensures
        lacks(pack_body(ms), newline()),
        pack_body(ms).last() != backslash(),
        pack_body(ms).len() > 0,
{
    let m = ms[0];
    let rest = ms.drop_first();
    assert(wire_safe(m));
    assert forall|i: int| 0 <= i < rest.len() implies wire_safe(#[trigger] rest[i]) by {
        assert(rest[i] == ms[i + 1]);
    }
    assert(encode(m).drop_first() =~= field_bytes(m));
    lemma_field_lacks_newline(m);
    lemma_encode_all_lacks_newline(rest);
    let h = field_bytes(m);
    let a = encode_all(rest);
    let body = pack_body(ms);
    assert(body =~= h + a);
    assert forall|i: int| 0 <= i < body.len() implies body[i] != 10 by {
        if i < h.len() {
            assert(body[i] == h[i]);
        } else {
            assert(body[i] == a[i - h.len()]);
        }
    }
    let l = rest.last();
    assert(wire_safe(rest[rest.len() - 1]));
    lemma_field_end(l);
    assert(rest.drop_last().len() + 1 == rest.len());
    let e = encode(l);
    assert(a == encode_all(rest.drop_last()) + e);
    assert(a.last() == e.last());
    assert(body.last() == a.last());
    if field_bytes(l).len() > 0 {
        assert(e.last() == field_bytes(l).last());
    } else {
        assert(e.last() == type_code(l));
    }
}

/// Law: a frame packed from packable messages is one line, and that line
/// unpacks to the same messages.
pub proof fn lemma_frame_roundtrip(ms: Seq<MessageView>)
    requires
        packable(ms),
    ensures
        delimit_spec(pack_spec(ms)) == seq![pack_body(ms)],
        unpack_spec(pack_body(ms)) == ms,
{
    lemma_unpack_pack_body(ms);
    lemma_pack_body_plain(ms);
    let body = pack_body(ms);
    lemma_line_escaped_plain(body);
    lemma_split_line(body, Seq::empty(), Seq::empty(), Seq::empty());
    assert(body.push(newline()) + Seq::<u8>::empty() =~= pack_spec(ms));
    assert(Seq::<u8>::empty() + body =~= body);
    assert(Seq::<Seq<u8>>::empty().push(body) =~= seq![body]);
}

/// Law: frames sent back to back come apart as their lines, in order.
pub proof fn lemma_frames_in_sequence(first: Seq<MessageView>, second: Seq<MessageView>)
    requires
        packable(first),
        packable(second),
    ensures
        delimit_spec(pack_spec(first) + pack_spec(second)) == seq![
            pack_body(first),
            pack_body(second),
        ],
{
    lemma_pack_body_plain(first);
    lemma_pack_body_plain(second);
    let b1 = pack_body(first);
    let b2 = pack_body(second);
    lemma_line_escaped_plain(b1);
    lemma_line_escaped_plain(b2);
    lemma_split_line(b1, pack_spec(second), Seq::empty(), Seq::empty());
    assert(Seq::<u8>::empty() + b1 =~= b1);
    lemma_split_line(b2, Seq::empty(), Seq::empty(), seq![b1]);
    assert(Seq::<u8>::empty() + b2 =~= b2);
    assert(b2.push(newline()) + Seq::<u8>::empty() =~= pack_spec(second));
    assert(seq![b1].push(b2) =~= seq![b1, b2]);
}

/// Law: in a line, a backslash makes the byte after it, whatever that byte
/// is, the next byte of the current field.
pub proof fn lemma_scan_escape_pair(
    x: u8,
    rest: Seq<u8>,
    mode: u8,
    field: Seq<u8>,
    done: Seq<MessageView>,
)
    ensures
        scan(seq![92u8, x] + rest, mode, field, done) == scan(rest, mode, field.push(x), done),
{
    let s = seq![92u8, x] + rest;
    assert(s.skip(2) =~= rest);
}

/// Law: a type code (a byte from 2 to 7) ends the current field, which
/// becomes a message of the current type, and starts a field of its own type.
pub proof fn lemma_scan_type_code(
    c: u8,
    rest: Seq<u8>,
    mode: u8,
    field: Seq<u8>,
    done: Seq<MessageView>,
)
    requires
        2 <= c <= 7,
    ensures
        scan(seq![c] + rest, mode, field, done) == scan(
            rest,
            c,
            Seq::empty(),
            done.push(decode_field(mode, field)),
        ),
{
    assert((seq![c] + rest).skip(1) =~= rest);
}

/// Law: any other byte, unescaped, is the next byte of the current field.
pub proof fn lemma_scan_other_byte(
    b: u8,
    rest: Seq<u8>,
    mode: u8,
    field: Seq<u8>,
    done: Seq<MessageView>,
)
    requires
        b != 92,
        !(2 <= b <= 7),
    ensures
        scan(seq![b] + rest, mode, field, done) == scan(rest, mode, field.push(b), done),
{
    assert((seq![b] + rest).skip(1) =~= rest);
}

/// Law: the end of a line ends the current field, which becomes the last message.
pub proof fn lemma_scan_end(mode: u8, field: Seq<u8>, done: Seq<MessageView>)
    ensures
        scan(Seq::empty(), mode, field, done) == done.push(decode_field(mode, field)),
{
}

/// Every byte preceded by a backslash.
pub open spec fn escape_every(x: Seq<u8>) -> Seq<u8> {
    escaped(x, |b: u8| true, 92)
}

proof fn lemma_scan_escape_every(x: Seq<u8>, mode: u8, field: Seq<u8>, done: Seq<MessageView>)
    ensures
        scan(escape_every(x), mode, field, done) == done.push(decode_field(mode, field + x)),
    decreases x.len(),
{
    if x.len() == 0 {
        assert(escape_every(x) =~= Seq::<u8>::empty());
        assert(field + x =~= field);
    } else {
        let xs = x.drop_first();
        assert(escape_every(x) =~= seq![92u8, x[0]] + escape_every(xs));
        lemma_scan_escape_pair(x[0], escape_every(xs), mode, field, done);
        lemma_scan_escape_every(xs, mode, field.push(x[0]), done);
        assert(field.push(x[0]) + xs =~= field + x);
    }
}

/// Law: a line in which every byte is escaped is one text, of exactly those bytes.
pub proof fn lemma_unpack_escape_every(x: Seq<u8>)
    requires
        x.len() > 0,
    ensures
        unpack_spec(escape_every(x)) == seq![MessageView::Text(text_field(x))],
{
    lemma_scan_escape_every(x, 3, Seq::empty(), Seq::empty());
    assert(Seq::<u8>::empty() + x =~= x);
    assert(escape_every(x).len() > 0) by {
        assert(escape_every(x) =~= seq![92u8, x[0]] + escape_every(x.drop_first()));
    }
    assert(Seq::<MessageView>::empty().push(MessageView::Text(text_field(x))) =~= seq![
        MessageView::Text(text_field(x)),
    ]);
}

/// Law: what each type code makes of its field. Code 2 keeps the bytes, 3 and
/// 7 decode valid UTF-8 as text and float text, 4 is true exactly when the
/// field starts with `1`, and every code but 2, 3, 4, 5 and 7 gives the
/// empty message.
pub proof fn lemma_field_codes(code: u8, d: Seq<u8>)
    ensures
        decode_field(2, d) == MessageView::Binary(d),
        valid_utf8(d) ==> decode_field(3, d) == MessageView::Text(decode_utf8(d)),
        valid_utf8(d) ==> decode_field(7, d) == MessageView::Float(decode_utf8(d)),
        decode_field(4, d) == MessageView::Boolean(d.len() > 0 && d[0] == 49),
        code != 2 && code != 3 && code != 4 && code != 5 && code != 7 ==> decode_field(code, d)
            == MessageView::Null,
{
}

/// Law: a number field of 2, 4 or 8 bytes is read as a big-endian signed
/// number of that width: every `i16`, `i32` and `i64` written in that many
/// big-endian bytes reads back as itself. An empty field is 0, and a field of
/// any other length is its first byte as a signed number.
pub proof fn lemma_number_fields(a: i16, b: i32, c: i64, d: Seq<u8>)
    ensures
        decode_field(5, be_bytes(a as int, 2)) == MessageView::Number(a as i64),
        decode_field(5, be_bytes(b as int, 4)) == MessageView::Number(b as i64),
        decode_field(5, be_bytes(c as int, 8)) == MessageView::Number(c),
        d.len() == 0 ==> decode_field(5, d) == MessageView::Number(0),
        d.len() != 0 && d.len() != 2 && d.len() != 4 && d.len() != 8 ==> decode_field(5, d)
            == MessageView::Number(be_signed(seq![d[0]]) as i64),
{
    assert(pow256(2) == 65536) by {
        reveal_with_fuel(pow256, 3);
    }
    assert(pow256(4) == 0x1_0000_0000) by {
        reveal_with_fuel(pow256, 5);
    }
    assert(pow256(8) == 0x1_0000_0000_0000_0000) by {
        reveal_with_fuel(pow256, 9);
    }
    lemma_be_bytes_signed(a as int, 2);
    lemma_be_bytes_signed(b as int, 4);
    lemma_be_bytes_signed(c as int, 8);
    assert(be_bytes(a as int, 2).take(2) =~= be_bytes(a as int, 2));
    assert(be_bytes(b as int, 4).take(4) =~= be_bytes(b as int, 4));
    assert(be_bytes(c as int, 8).take(8) =~= be_bytes(c as int, 8));
    if d.len() != 0 {
        assert(d.take(1) =~= seq![d[0]]);
    }
}

} // verus!
