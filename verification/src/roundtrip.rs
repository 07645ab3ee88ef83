//! The codec's round trip: what was written as a frame is read back as the
//! same frame.

use crate::connection::{spec_decode, Decoded};
use crate::frame::{
    find_crlf, null_line, spec_check, spec_check_seq, spec_decimal, spec_encode, spec_encode_seq,
    spec_line, spec_parse, spec_parse_seq, ErrorView, FrameView, COLON, DOLLAR, MINUS, PLUS, STAR,
};
use crate::text::{
    crlf, decimal_bytes, is_digit, lemma_decimal_bytes, lemma_leading_number_of_decimal, CR, LF,
};
use vstd::prelude::*;
use vstd::utf8::{encode_utf8, encode_utf8_decode_utf8, encode_utf8_valid_utf8};

verus! {

/// Whether no CR LF pair lies inside `bytes`.
pub open spec fn no_crlf(bytes: Seq<u8>) -> bool {
    forall|j: int|
        0 <= j && j + 1 < bytes.len() ==> !(#[trigger] bytes[j] == CR && bytes[j + 1] == LF)
}

/// Whether a frame can be read back from its bytes: the text of a simple or
/// error frame holds no line end, and lengths fit the machine's sizes, as
/// they do in every frame that exists in memory.
pub open spec fn wire_safe(frame: FrameView) -> bool
    decreases frame,
{
    match frame {
        FrameView::Simple(text) => no_crlf(encode_utf8(text)),
        FrameView::Error(text) => no_crlf(encode_utf8(text)),
        FrameView::Integer(_) => true,
        FrameView::Bulk(data) => data.len() <= usize::MAX,
        FrameView::Null => true,
        FrameView::Array(items) => items.len() <= usize::MAX && forall|i: int|
            0 <= i < items.len() ==> wire_safe(#[trigger] items[i]),
    }
}

/// Whether the buffer `s` holds the bytes `e` at `pos`.
pub open spec fn holds_at(s: Seq<u8>, pos: int, e: Seq<u8>) -> bool {
    0 <= pos && pos + e.len() <= s.len() && s.subrange(pos, pos + e.len()) == e
}

proof fn lemma_holds_at_index(s: Seq<u8>, pos: int, e: Seq<u8>, k: int)
    requires
        holds_at(s, pos, e),
        0 <= k < e.len(),
    ensures
        s[pos + k] == e[k],
{
    assert(s.subrange(pos, pos + e.len())[k] == s[pos + k]);
}

proof fn lemma_holds_at_split(s: Seq<u8>, pos: int, a: Seq<u8>, b: Seq<u8>)
    requires
        holds_at(s, pos, a + b),
    ensures
        holds_at(s, pos, a),
        holds_at(s, pos + a.len(), b),
{
    let e = a + b;
    assert forall|k: int| 0 <= k < a.len() implies s.subrange(pos, pos + a.len())[k] == a[k] by {
        lemma_holds_at_index(s, pos, e, k);
    }
    assert(s.subrange(pos, pos + a.len()) =~= a);
    assert forall|k: int| 0 <= k < b.len() implies s.subrange(
        pos + a.len(),
        pos + a.len() + b.len(),
    )[k] == b[k] by {
        lemma_holds_at_index(s, pos, e, a.len() + k);
    }
    assert(s.subrange(pos + a.len(), pos + a.len() + b.len()) =~= b);
}

proof fn lemma_find_crlf_at(s: Seq<u8>, from: int, i: int)
    requires
        0 <= from <= i,
        i + 1 < s.len(),
        s[i] == CR,
        s[i + 1] == LF,
        forall|j: int| from <= j < i ==> !(#[trigger] s[j] == CR && s[j + 1] == LF),
    ensures
        find_crlf(s, from) == Some(i),
    decreases i - from,
{
    if from < i {
        lemma_find_crlf_at(s, from + 1, i);
    }
}

/// A line without a line end inside it, written with its CR LF, is read back.
proof fn lemma_line_at(s: Seq<u8>, pos: int, line: Seq<u8>)
    requires
        holds_at(s, pos, line + crlf()),
        no_crlf(line),
    ensures
        spec_line(s, pos) == Some((line, pos + line.len() + 2)),
{
    lemma_holds_at_split(s, pos, line, crlf());
    let end = pos + line.len();
    lemma_holds_at_index(s, end, crlf(), 0);
    lemma_holds_at_index(s, end, crlf(), 1);
    assert forall|j: int| pos <= j < end implies !(#[trigger] s[j] == CR && s[j + 1] == LF) by {
        lemma_holds_at_index(s, pos, line, j - pos);
        if j + 1 < end {
            lemma_holds_at_index(s, pos, line, j + 1 - pos);
        }
    }
    lemma_find_crlf_at(s, pos, end);
}

/// A number written in base ten with its CR LF is read back.
proof fn lemma_decimal_at(s: Seq<u8>, pos: int, n: u64)
    requires
        holds_at(s, pos, decimal_bytes(n as nat) + crlf()),
    ensures
        spec_decimal(s, pos) == Ok::<(u64, int), ErrorView>(
            (n, pos + decimal_bytes(n as nat).len() + 2),
        ),
        s[pos] != MINUS,
{
    let d = decimal_bytes(n as nat);
    lemma_decimal_bytes(n as nat);
    assert(no_crlf(d)) by {
        assert forall|j: int| 0 <= j && j + 1 < d.len() implies !(#[trigger] d[j] == CR && d[j + 1]
            == LF) by {
            assert(is_digit(d[j]));
        }
    }
    lemma_line_at(s, pos, d);
    lemma_leading_number_of_decimal(n);
    lemma_holds_at_split(s, pos, d, crlf());
    lemma_holds_at_index(s, pos, d, 0);
    assert(is_digit(d[0]));
}

/// The bytes of a frame, wherever they stand in a buffer, are checked and
/// parsed as that frame, and both end where the bytes end.
pub proof fn lemma_frame_at(s: Seq<u8>, pos: int, frame: FrameView)
    requires
        wire_safe(frame),
        holds_at(s, pos, spec_encode(frame)),
    ensures
        spec_parse(s, pos) == Ok::<(FrameView, int), ErrorView>(
            (frame, pos + spec_encode(frame).len()),
        ),
        spec_check(s, pos) == Ok::<int, ErrorView>(pos + spec_encode(frame).len()),
    decreases frame, 0nat,
{
    let e = spec_encode(frame);
    lemma_holds_at_index(s, pos, e, 0);
    match frame {
        FrameView::Simple(text) => {
            let line = encode_utf8(text);
            assert(e =~= seq![PLUS] + (line + crlf()));
            lemma_holds_at_split(s, pos, seq![PLUS], line + crlf());
            lemma_line_at(s, pos + 1, line);
            encode_utf8_valid_utf8(text);
            encode_utf8_decode_utf8(text);
        },
        FrameView::Error(text) => {
            let line = encode_utf8(text);
            assert(e =~= seq![MINUS] + (line + crlf()));
            lemma_holds_at_split(s, pos, seq![MINUS], line + crlf());
            lemma_line_at(s, pos + 1, line);
            encode_utf8_valid_utf8(text);
            encode_utf8_decode_utf8(text);
        },
        FrameView::Integer(n) => {
            let d = decimal_bytes(n as nat);
            assert(e =~= seq![COLON] + (d + crlf()));
            lemma_holds_at_split(s, pos, seq![COLON], d + crlf());
            lemma_decimal_at(s, pos + 1, n);
        },
        FrameView::Null => {
            assert(e =~= seq![DOLLAR] + (null_line() + crlf()));
            lemma_holds_at_split(s, pos, seq![DOLLAR], null_line() + crlf());
            assert(no_crlf(null_line()));
            lemma_line_at(s, pos + 1, null_line());
            lemma_holds_at_index(s, pos + 1, null_line() + crlf(), 0);
        },
        FrameView::Bulk(data) => {
            let n = data.len() as u64;
            let d = decimal_bytes(data.len());
            assert(e =~= seq![DOLLAR] + ((d + crlf()) + (data + crlf())));
            lemma_holds_at_split(s, pos, seq![DOLLAR], (d + crlf()) + (data + crlf()));
            lemma_holds_at_split(s, pos + 1, d + crlf(), data + crlf());
            lemma_decimal_at(s, pos + 1, n);
            let next = pos + 1 + d.len() + 2;
            lemma_holds_at_split(s, next, data, crlf());
        },
        FrameView::Array(items) => {
            let n = items.len() as u64;
            let d = decimal_bytes(items.len());
            let body = spec_encode_seq(items);
            assert(e =~= seq![STAR] + ((d + crlf()) + body));
            lemma_holds_at_split(s, pos, seq![STAR], (d + crlf()) + body);
            lemma_holds_at_split(s, pos + 1, d + crlf(), body);
            lemma_decimal_at(s, pos + 1, n);
            let next = pos + 1 + d.len() + 2;
            lemma_frames_at(s, next, items);
        },
    }
}

/// The bytes of a run of frames, wherever they stand in a buffer, are
/// checked and parsed as those frames.
pub proof fn lemma_frames_at(s: Seq<u8>, pos: int, items: Seq<FrameView>)
    requires
        forall|i: int| 0 <= i < items.len() ==> wire_safe(#[trigger] items[i]),
        holds_at(s, pos, spec_encode_seq(items)),
    ensures
        spec_parse_seq(s, pos, items.len()) == Ok::<(Seq<FrameView>, int), ErrorView>(
            (items, pos + spec_encode_seq(items).len()),
        ),
        spec_check_seq(s, pos, items.len()) == Ok::<int, ErrorView>(
            pos + spec_encode_seq(items).len(),
        ),
    decreases items, 1nat,
{
    if items.len() == 0 {
        assert(items =~= Seq::<FrameView>::empty());
    } else {
        let first = items[0];
        let rest = items.subrange(1, items.len() as int);
        lemma_holds_at_split(s, pos, spec_encode(first), spec_encode_seq(rest));
        lemma_frame_at(s, pos, first);
        let next = pos + spec_encode(first).len();
        assert(spec_encode(first).len() > 0);
        assert forall|i: int| 0 <= i < rest.len() implies wire_safe(#[trigger] rest[i]) by {
            assert(rest[i] == items[i + 1]);
        }
        lemma_frames_at(s, next, rest);
        assert(seq![first] + rest =~= items);
    }
}

/// Reading gives back what writing wrote: a frame's bytes, alone in a buffer
/// or followed by anything, are checked and parsed as that frame, and the
/// frame takes exactly its own bytes.
pub proof fn lemma_decode_encode(frame: FrameView, more: Seq<u8>)
    requires
        wire_safe(frame),
    ensures
        spec_parse(spec_encode(frame) + more, 0) == Ok::<(FrameView, int), ErrorView>(
            (frame, spec_encode(frame).len() as int),
        ),
        spec_check(spec_encode(frame) + more, 0) == Ok::<int, ErrorView>(
            spec_encode(frame).len() as int,
        ),
        spec_decode(spec_encode(frame) + more) == Decoded::Frame(
            frame,
            spec_encode(frame).len() as int,
        ),
{
    let e = spec_encode(frame);
    let s = e + more;
    assert(s.subrange(0, e.len() as int) =~= e);
    lemma_frame_at(s, 0, frame);
}

} // verus!
