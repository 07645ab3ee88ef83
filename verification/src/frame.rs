//! One RESP frame, its mathematical model, and the functions that read a
//! frame from a byte buffer.

use crate::payload::{
    bytes_as_slice, bytes_copy_from_slice, bytes_debug, bytes_debug_text, bytes_view,
};
use crate::text::{
    atoi_u64, crlf, decimal_bytes, decimal_chars, leading_number, quoted, str_debug,
    string_from_utf8, u64_to_string, CR, LF,
};
use bytes::Bytes;
use vstd::prelude::*;
use vstd::slice::{slice_subrange, slice_to_vec};
use vstd::string::StringExecFns;
use vstd::utf8::{decode_utf8, encode_utf8, valid_utf8};

verus! {

/// `+`, which starts a simple frame.
pub const PLUS: u8 = 43;

/// `-`, which starts an error frame.
pub const MINUS: u8 = 45;

/// `:`, which starts an integer frame.
pub const COLON: u8 = 58;

/// `$`, which starts a bulk frame or a null frame.
pub const DOLLAR: u8 = 36;

/// `*`, which starts an array frame.
pub const STAR: u8 = 42;

/// Why no frame could be read.
#[derive(Debug, PartialEq, Eq)]
pub enum Error {
    /// The buffer ends before the frame does.
    Incomplete,
    /// The bytes are no frame; the text says why.
    Other(String),
}

/// The model of an [`Error`].
pub enum ErrorView {
    Incomplete,
    Other(Seq<char>),
}

impl View for Error {
    type V = ErrorView;

    open spec fn view(&self) -> ErrorView {
        match self {
            Error::Incomplete => ErrorView::Incomplete,
            Error::Other(msg) => ErrorView::Other(msg@),
        }
    }
}

/// The text that stands for an error where errors are plain text.
pub open spec fn error_text(e: ErrorView) -> Seq<char> {
    match e {
        ErrorView::Incomplete => "stream ended early"@,
        ErrorView::Other(msg) => msg,
    }
}

impl Error {
    /// The error as plain text.
    pub fn into_text(self) -> (text: String)
        ensures
            text@ == error_text(self@),
    {
        match self {
            Error::Incomplete => "stream ended early".to_owned(),
            Error::Other(msg) => msg,
        }
    }
}

/// The text of the error for bytes that are no frame.
pub open spec fn invalid_format_text() -> Seq<char> {
    "protocol error; invalid frame format"@
}

/// The text of the error for a frame that starts with the byte `actual`.
pub open spec fn invalid_type_text(actual: u8) -> Seq<char> {
    "protocol error; invalid frame type byte '"@ + decimal_chars(actual as nat) + "'"@
}

/// The error for bytes that are no frame.
pub fn invalid_format() -> (e: Error)
    ensures
        e@ == ErrorView::Other(invalid_format_text()),
{
    Error::Other("protocol error; invalid frame format".to_owned())
}

/// The error for a frame that starts with the byte `actual`.
pub fn invalid_type(actual: u8) -> (e: Error)
    ensures
        e@ == ErrorView::Other(invalid_type_text(actual)),
{
    let number = u64_to_string(actual as u64);
    let msg = "protocol error; invalid frame type byte '".to_owned();
    let msg = msg.concat(number.as_str());
    let msg = msg.concat("'");
    Error::Other(msg)
}

/// A read position in a byte buffer.
pub struct Cursor<'a> {
    pub data: &'a [u8],
    pub pos: usize,
}

impl<'a> Cursor<'a> {
    /// A cursor at the start of `data`.
    pub fn new(data: &'a [u8]) -> (cursor: Cursor<'a>)
        ensures
            cursor.data@ == data@,
            cursor.pos == 0,
    {
        Cursor { data, pos: 0 }
    }

    /// The number of bytes from the position to the end of the buffer.
    pub open spec fn spec_remaining(&self) -> nat {
        if self.pos <= self.data@.len() {
            (self.data@.len() - self.pos) as nat
        } else {
            0
        }
    }

    /// The number of bytes from the position to the end of the buffer.
    pub fn remaining(&self) -> (n: usize)
        ensures
            n == self.spec_remaining(),
    {
        if self.pos <= self.data.len() {
            self.data.len() - self.pos
        } else {
            0
        }
    }

    /// The position.
    pub fn position(&self) -> (pos: usize)
        ensures
            pos == self.pos,
    {
        self.pos
    }

    /// Moves the cursor to `pos`.
    pub fn set_position(&mut self, pos: usize)
        ensures
            final(self).pos == pos,
            final(self).data == old(self).data,
    {
        self.pos = pos;
    }
}

/// The index of the first CR LF pair that starts at or after `from`.
pub open spec fn find_crlf(s: Seq<u8>, from: int) -> Option<int>
    decreases s.len() - from,
{
    if from < 0 || from + 1 >= s.len() {
        None
    } else if s[from] == CR && s[from + 1] == LF {
        Some(from)
    } else {
        find_crlf(s, from + 1)
    }
}

/// The line that starts at `pos`, without its CR LF, and the position after
/// it.
pub open spec fn spec_line(s: Seq<u8>, pos: int) -> Option<(Seq<u8>, int)> {
    match find_crlf(s, pos) {
        Some(i) => Some((s.subrange(pos, i), i + 2)),
        None => None,
    }
}

/// The decimal number on the line that starts at `pos`, and the position
/// after that line.
pub open spec fn spec_decimal(s: Seq<u8>, pos: int) -> Result<(u64, int), ErrorView> {
    match spec_line(s, pos) {
        None => Err(ErrorView::Incomplete),
        Some((line, next)) => match leading_number(line) {
            Some(n) => Ok((n, next)),
            None => Err(ErrorView::Other(invalid_format_text())),
        },
    }
}

/// Where `find_crlf` finds a pair, it lies at or after `from`, inside the
/// buffer, and no pair starts between `from` and it.
pub proof fn lemma_find_crlf(s: Seq<u8>, from: int)
    ensures
        match find_crlf(s, from) {
            Some(i) => {
                &&& 0 <= from <= i
                &&& i + 1 < s.len()
                &&& s[i] == CR
                &&& s[i + 1] == LF
                &&& forall|j: int| from <= j < i ==> !(#[trigger] s[j] == CR && s[j + 1] == LF)
            },
            None => forall|j: int|
                0 <= from <= j && j + 1 < s.len() ==> !(#[trigger] s[j] == CR && s[j + 1] == LF),
        },
    decreases s.len() - from,
{
    if from < 0 || from + 1 >= s.len() {
    } else if s[from] == CR && s[from + 1] == LF {
    } else {
        lemma_find_crlf(s, from + 1);
    }
}

/// The next byte, without moving the cursor.
pub fn peek_u8(src: &Cursor) -> (r: Result<u8, Error>)
    ensures
        src.spec_remaining() == 0 ==> (r matches Err(e) && e@ == ErrorView::Incomplete),
        src.spec_remaining() > 0 ==> r == Ok::<u8, Error>(src.data@[src.pos as int]),
{
    if src.remaining() == 0 {
        return Err(Error::Incomplete);
    }
    Ok(src.data[src.pos])
}

/// The next byte; the cursor moves past it.
pub fn get_u8(src: &mut Cursor) -> (r: Result<u8, Error>)
    ensures
        final(src).data == old(src).data,
        old(src).spec_remaining() == 0 ==> (r matches Err(e) && e@ == ErrorView::Incomplete
            && final(src).pos == old(src).pos),
        old(src).spec_remaining() > 0 ==> r == Ok::<u8, Error>(old(src).data@[old(src).pos as int])
            && final(src).pos == old(src).pos + 1,
{
    if src.remaining() == 0 {
        return Err(Error::Incomplete);
    }
    let b = src.data[src.pos];
    src.pos = src.pos + 1;
    Ok(b)
}

/// Moves the cursor `n` bytes on, where that many bytes are left.
pub fn skip(src: &mut Cursor, n: usize) -> (r: Result<(), Error>)
    ensures
        final(src).data == old(src).data,
        old(src).spec_remaining() < n ==> (r matches Err(e) && e@ == ErrorView::Incomplete
            && final(src).pos == old(src).pos),
        old(src).spec_remaining() >= n ==> r is Ok && final(src).pos == old(src).pos + n,
{
    let len = src.data.len();
    if src.remaining() < n {
        return Err(Error::Incomplete);
    }
    src.pos = src.pos + n;
    Ok(())
}

/// The line at the cursor, without its CR LF; the cursor moves past the
/// CR LF. Without a CR LF from the cursor on, the line is incomplete and the
/// cursor stays.
pub fn get_line<'a>(src: &mut Cursor<'a>) -> (r: Result<&'a [u8], Error>)
    ensures
        final(src).data == old(src).data,
        match r {
            Ok(line) => spec_line(old(src).data@, old(src).pos as int) == Some(
                (line@, final(src).pos as int),
            ),
            Err(e) => e@ == ErrorView::Incomplete && final(src).pos == old(src).pos && spec_line(
                old(src).data@,
                old(src).pos as int,
            ) is None,
        },
{
    let start = src.pos;
    let len = src.data.len();
    if len == 0 || start >= len - 1 {
        return Err(Error::Incomplete);
    }
    let end = len - 1;
    let mut i = start;
    while i < end
        invariant
            start <= i <= end,
            end == len - 1,
            len == src.data@.len(),
            src.pos == start,
            start == old(src).pos,
            src.data == old(src).data,
            find_crlf(src.data@, start as int) == find_crlf(src.data@, i as int),
        decreases end - i,
    {
        if src.data[i] == CR && src.data[i + 1] == LF {
            src.pos = i + 2;
            let line = slice_subrange(src.data, start, i);
            return Ok(line);
        }
        i += 1;
    }
    Err(Error::Incomplete)
}

/// The decimal number on the line at the cursor; the cursor moves past the
/// line.
pub fn get_decimal(src: &mut Cursor) -> (r: Result<u64, Error>)
    ensures
        final(src).data == old(src).data,
        match r {
            Ok(n) => spec_decimal(old(src).data@, old(src).pos as int) == Ok::<
                (u64, int),
                ErrorView,
            >((n, final(src).pos as int)),
            Err(e) => spec_decimal(old(src).data@, old(src).pos as int) == Err::<
                (u64, int),
                ErrorView,
            >(e@),
        },
{
    let line = get_line(src)?;
    match atoi_u64(line) {
        Some(n) => Ok(n),
        None => Err(invalid_format()),
    }
}

/// What `Frame::check` finds at `pos`: the position after the frame that
/// starts there, or the reason why there is none. It looks at lengths and
/// line ends only: text is not decoded, and a `$-` frame is taken to be five
/// bytes long.
pub open spec fn spec_check(s: Seq<u8>, pos: int) -> Result<int, ErrorView>
    decreases s.len() - pos, 0nat,
{
    if pos < 0 || pos >= s.len() {
        Err(ErrorView::Incomplete)
    } else if s[pos] == PLUS || s[pos] == MINUS {
        match spec_line(s, pos + 1) {
            Some((_, next)) => Ok(next),
            None => Err(ErrorView::Incomplete),
        }
    } else if s[pos] == COLON {
        match spec_decimal(s, pos + 1) {
            Ok((_, next)) => Ok(next),
            Err(e) => Err(e),
        }
    } else if s[pos] == DOLLAR {
        if pos + 1 >= s.len() {
            Err(ErrorView::Incomplete)
        } else if s[pos + 1] == MINUS {
            if s.len() - (pos + 1) < 4 {
                Err(ErrorView::Incomplete)
            } else {
                Ok(pos + 5)
            }
        } else {
            match spec_decimal(s, pos + 1) {
                Err(e) => Err(e),
                Ok((n, next)) => if n > usize::MAX {
                    Err(ErrorView::Other(invalid_format_text()))
                } else if s.len() - next < n + 2 {
                    Err(ErrorView::Incomplete)
                } else {
                    Ok(next + n + 2)
                },
            }
        }
    } else if s[pos] == STAR {
        match spec_decimal(s, pos + 1) {
            Err(e) => Err(e),
            Ok((n, next)) => {
                proof {
                    lemma_find_crlf(s, pos + 1);
                }
                spec_check_seq(s, next, n as nat)
            },
        }
    } else {
        Err(ErrorView::Other(invalid_type_text(s[pos])))
    }
}

/// What checking `n` frames in a row finds, the first at `pos`. A frame is at
/// least one byte long and ends inside the buffer, so the test on `next`
/// never fails: it is there for the termination proof.
pub open spec fn spec_check_seq(s: Seq<u8>, pos: int, n: nat) -> Result<int, ErrorView>
    decreases s.len() - pos, n + 1,
{
    if n == 0 {
        Ok(pos)
    } else {
        match spec_check(s, pos) {
            Err(e) => Err(e),
            Ok(next) => if pos < next <= s.len() {
                spec_check_seq(s, next, (n - 1) as nat)
            } else {
                Err(ErrorView::Incomplete)
            },
        }
    }
}

/// A frame that `spec_check` accepts ends after its start and inside the
/// buffer.
pub proof fn lemma_check_advances(s: Seq<u8>, pos: int)
    ensures
        spec_check(s, pos) matches Ok(next) ==> 0 <= pos < next <= s.len(),
    decreases s.len() - pos, 0nat,
{
    if 0 <= pos < s.len() {
        lemma_find_crlf(s, pos + 1);
        if s[pos] == STAR {
            if let Ok((n, next)) = spec_decimal(s, pos + 1) {
                lemma_check_seq_advances(s, next, n as nat);
            }
        }
    }
}

/// A run of frames that `spec_check_seq` accepts ends at or after its start
/// and inside the buffer.
pub proof fn lemma_check_seq_advances(s: Seq<u8>, pos: int, n: nat)
    requires
        0 <= pos <= s.len(),
    ensures
        spec_check_seq(s, pos, n) matches Ok(end) ==> pos <= end <= s.len(),
    decreases s.len() - pos, n + 1,
{
    if n > 0 {
        lemma_check_advances(s, pos);
        if let Ok(next) = spec_check(s, pos) {
            lemma_check_seq_advances(s, next, (n - 1) as nat);
        }
    }
}

/// The two bytes of the line that marks a null frame.
pub open spec fn null_line() -> Seq<u8> {
    seq![MINUS, 49u8]
}

/// The text frame that a line holds: the line decoded as UTF-8.
pub open spec fn spec_text(line: Seq<u8>) -> Result<Seq<char>, ErrorView> {
    if valid_utf8(line) {
        Ok(decode_utf8(line))
    } else {
        Err(ErrorView::Other(invalid_format_text()))
    }
}

/// The frame that starts at `pos`, and the position after it; or the reason
/// why there is none.
pub open spec fn spec_parse(s: Seq<u8>, pos: int) -> Result<(FrameView, int), ErrorView>
    decreases s.len() - pos, 0nat,
{
    if pos < 0 || pos >= s.len() {
        Err(ErrorView::Incomplete)
    } else if s[pos] == PLUS || s[pos] == MINUS {
        match spec_line(s, pos + 1) {
            None => Err(ErrorView::Incomplete),
            Some((line, next)) => match spec_text(line) {
                Err(e) => Err(e),
                Ok(text) => if s[pos] == PLUS {
                    Ok((FrameView::Simple(text), next))
                } else {
                    Ok((FrameView::Error(text), next))
                },
            },
        }
    } else if s[pos] == COLON {
        match spec_decimal(s, pos + 1) {
            Ok((n, next)) => Ok((FrameView::Integer(n), next)),
            Err(e) => Err(e),
        }
    } else if s[pos] == DOLLAR {
        if pos + 1 >= s.len() {
            Err(ErrorView::Incomplete)
        } else if s[pos + 1] == MINUS {
            match spec_line(s, pos + 1) {
                None => Err(ErrorView::Incomplete),
                Some((line, next)) => if line == null_line() {
                    Ok((FrameView::Null, next))
                } else {
                    Err(ErrorView::Other(invalid_format_text()))
                },
            }
        } else {
            match spec_decimal(s, pos + 1) {
                Err(e) => Err(e),
                Ok((n, next)) => if n > usize::MAX {
                    Err(ErrorView::Other(invalid_format_text()))
                } else if s.len() - next < n + 2 {
                    Err(ErrorView::Incomplete)
                } else {
                    Ok((FrameView::Bulk(s.subrange(next, next + n)), next + n + 2))
                },
            }
        }
    } else if s[pos] == STAR {
        match spec_decimal(s, pos + 1) {
            Err(e) => Err(e),
            Ok((n, next)) => if n > usize::MAX {
                Err(ErrorView::Other(invalid_format_text()))
            } else {
                proof {
                    lemma_find_crlf(s, pos + 1);
                }
                as_array(spec_parse_seq(s, next, n as nat))
            },
        }
    } else {
        Err(ErrorView::Other(invalid_type_text(s[pos])))
    }
}

/// The array frame made of the frames of a result.
pub open spec fn as_array(r: Result<(Seq<FrameView>, int), ErrorView>) -> Result<
    (FrameView, int),
    ErrorView,
> {
    match r {
        Err(e) => Err(e),
        Ok((items, end)) => Ok((FrameView::Array(items), end)),
    }
}

/// `items` put before the frames of a result.
pub open spec fn prepend(items: Seq<FrameView>, r: Result<(Seq<FrameView>, int), ErrorView>)
    -> Result<(Seq<FrameView>, int), ErrorView> {
    match r {
        Err(e) => Err(e),
        Ok((rest, end)) => Ok((items + rest, end)),
    }
}

/// The `n` frames that follow one another from `pos` on, and the position
/// after the last. A frame is at least one byte long and ends inside the
/// buffer, so the test on `next` never fails: it is there for the termination
/// proof.
pub open spec fn spec_parse_seq(s: Seq<u8>, pos: int, n: nat) -> Result<
    (Seq<FrameView>, int),
    ErrorView,
>
    decreases s.len() - pos, n + 1,
{
    if n == 0 {
        Ok((Seq::empty(), pos))
    } else {
        match spec_parse(s, pos) {
            Err(e) => Err(e),
            Ok((first, next)) => if pos < next <= s.len() {
                prepend(seq![first], spec_parse_seq(s, next, (n - 1) as nat))
            } else {
                Err(ErrorView::Incomplete)
            },
        }
    }
}

/// A frame that `spec_parse` reads ends after its start and inside the
/// buffer.
pub proof fn lemma_parse_advances(s: Seq<u8>, pos: int)
    ensures
        spec_parse(s, pos) matches Ok((_, next)) ==> 0 <= pos < next <= s.len(),
    decreases s.len() - pos, 0nat,
{
    if 0 <= pos < s.len() {
        lemma_find_crlf(s, pos + 1);
        if s[pos] == STAR {
            if let Ok((n, next)) = spec_decimal(s, pos + 1) {
                lemma_parse_seq_advances(s, next, n as nat);
            }
        }
    }
}

/// A run of frames that `spec_parse_seq` reads has `n` frames and ends at or
/// after its start, inside the buffer.
pub proof fn lemma_parse_seq_advances(s: Seq<u8>, pos: int, n: nat)
    requires
        0 <= pos <= s.len(),
    ensures
        spec_parse_seq(s, pos, n) matches Ok((items, end)) ==> pos <= end <= s.len() && items.len()
            == n,
    decreases s.len() - pos, n + 1,
{
    if n > 0 {
        lemma_parse_advances(s, pos);
        if let Ok((_, next)) = spec_parse(s, pos) {
            lemma_parse_seq_advances(s, next, (n - 1) as nat);
        }
    }
}

/// The bytes that stand for a frame on the wire.
pub open spec fn spec_encode(frame: FrameView) -> Seq<u8>
    decreases frame,
{
    match frame {
        FrameView::Simple(text) => seq![PLUS] + encode_utf8(text) + crlf(),
        FrameView::Error(text) => seq![MINUS] + encode_utf8(text) + crlf(),
        FrameView::Integer(n) => seq![COLON] + decimal_bytes(n as nat) + crlf(),
        FrameView::Bulk(data) => seq![DOLLAR] + decimal_bytes(data.len()) + crlf() + data + crlf(),
        FrameView::Null => seq![DOLLAR] + null_line() + crlf(),
        FrameView::Array(items) => seq![STAR] + decimal_bytes(items.len()) + crlf()
            + spec_encode_seq(items),
    }
}

/// The bytes of a run of frames: one frame's bytes after the other's.
pub open spec fn spec_encode_seq(items: Seq<FrameView>) -> Seq<u8>
    decreases items,
{
    if items.len() == 0 {
        Seq::empty()
    } else {
        spec_encode(items[0]) + spec_encode_seq(items.subrange(1, items.len() as int))
    }
}

/// A frame as it is shown to a reader: text as it is, a number in base
/// ten, bytes as text where they are UTF-8 and as `{:?}` prints them
/// otherwise. Of an array the first item is left out, and each of the others
/// follows a space.
pub open spec fn display_text(frame: FrameView) -> Seq<char>
    decreases frame, 0nat,
{
    match frame {
        FrameView::Simple(text) => text,
        FrameView::Error(msg) => "error: "@ + msg,
        FrameView::Integer(n) => decimal_chars(n as nat),
        FrameView::Bulk(data) => if valid_utf8(data) {
            decode_utf8(data)
        } else {
            bytes_debug_text(data)
        },
        FrameView::Null => "(nil)"@,
        FrameView::Array(parts) => display_rest(parts, 1),
    }
}

/// The items of an array from the index `from` on, as they are shown: each
/// after a space.
pub open spec fn display_rest(parts: Seq<FrameView>, from: int) -> Seq<char>
    decreases parts, parts.len() - from,
{
    if from < 0 || from >= parts.len() {
        Seq::empty()
    } else {
        " "@ + display_text(parts[from]) + display_rest(parts, from + 1)
    }
}

/// A frame as `{:?}` prints it: the variant's name and, in brackets, what it
/// holds.
pub open spec fn debug_text(frame: FrameView) -> Seq<char>
    decreases frame, 0nat,
{
    match frame {
        FrameView::Simple(text) => "Simple("@ + quoted(text) + ")"@,
        FrameView::Error(msg) => "Error("@ + quoted(msg) + ")"@,
        FrameView::Integer(n) => "Integer("@ + decimal_chars(n as nat) + ")"@,
        FrameView::Bulk(data) => "Bulk("@ + bytes_debug_text(data) + ")"@,
        FrameView::Null => "Null"@,
        FrameView::Array(items) => "Array(["@ + debug_list(items, 0) + "])"@,
    }
}

/// The items of an array from the index `from` on, as `{:?}` prints them:
/// with a comma and a space between two.
pub open spec fn debug_list(items: Seq<FrameView>, from: int) -> Seq<char>
    decreases items, items.len() - from,
{
    if from < 0 || from >= items.len() {
        Seq::empty()
    } else if from + 1 == items.len() {
        debug_text(items[from])
    } else {
        debug_text(items[from]) + ", "@ + debug_list(items, from + 1)
    }
}

/// The text of the error for a frame that was not expected.
pub open spec fn unexpected_text(frame: FrameView) -> Seq<char> {
    "unexpected frame: "@ + display_text(frame)
}

/// Whether a frame is the text `text`: a simple frame with that text, or a
/// bulk frame with its bytes.
pub open spec fn is_text(frame: FrameView, text: Seq<char>) -> bool {
    match frame {
        FrameView::Simple(s) => s == text,
        FrameView::Bulk(data) => data == encode_utf8(text),
        _ => false,
    }
}

/// Whether two slices hold the same bytes.
pub fn same_bytes(a: &[u8], b: &[u8]) -> (same: bool)
    ensures
        same == (a@ == b@),
{
    if a.len() != b.len() {
        return false;
    }
    let mut i: usize = 0;
    while i < a.len()
        invariant
            i <= a.len(),
            a@.len() == b@.len(),
            forall|j: int| 0 <= j < i ==> a@[j] == b@[j],
        decreases a.len() - i,
    {
        if a[i] != b[i] {
            return false;
        }
        i += 1;
    }
    assert(a@ =~= b@);
    true
}

/// A frame of the protocol.
#[derive(Debug, PartialEq, Eq)]
pub enum Frame {
    Simple(String),
    Error(String),
    Integer(u64),
    Bulk(Bytes),
    Null,
    Array(Vec<Frame>),
}

/// What a frame means: text as characters, payloads as bytes.
pub enum FrameView {
    Simple(Seq<char>),
    Error(Seq<char>),
    Integer(u64),
    Bulk(Seq<u8>),
    Null,
    Array(Seq<FrameView>),
}

/// What a frame means; `frame@` is short for it.
pub open spec fn frame_view(frame: Frame) -> FrameView
    decreases frame,
{
    match frame {
        Frame::Simple(s) => FrameView::Simple(s@),
        Frame::Error(s) => FrameView::Error(s@),
        Frame::Integer(n) => FrameView::Integer(n),
        Frame::Bulk(b) => FrameView::Bulk(bytes_view(b)),
        Frame::Null => FrameView::Null,
        Frame::Array(v) => FrameView::Array(
            Seq::new(
                v@.len(),
                |i: int|
                    if 0 <= i < v@.len() {
                        frame_view(v@[i])
                    } else {
                        FrameView::Null
                    },
            ),
        ),
    }
}

impl View for Frame {
    type V = FrameView;

    open spec fn view(&self) -> FrameView {
        frame_view(*self)
    }
}

/// The models of the frames of a sequence, in order.
pub open spec fn views_of(frames: Seq<Frame>) -> Seq<FrameView> {
    frames.map_values(|f: Frame| f@)
}

/// The model of an array frame is the array of the models of its items.
pub proof fn lemma_array_view(items: Vec<Frame>)
    ensures
        Frame::Array(items)@ == FrameView::Array(views_of(items@)),
{
    assert(Frame::Array(items)@->Array_0 =~= views_of(items@));
}

impl Clone for Frame {
    fn clone(&self) -> (copy: Frame)
        ensures
            copy@ == self@,
        decreases self,
    {
        match self {
            Frame::Simple(s) => Frame::Simple(s.clone()),
            Frame::Error(s) => Frame::Error(s.clone()),
            Frame::Integer(n) => Frame::Integer(*n),
            Frame::Bulk(b) => Frame::Bulk(b.clone()),
            Frame::Null => Frame::Null,
            Frame::Array(v) => {
                let mut out: Vec<Frame> = Vec::new();
                let mut i: usize = 0;
                while i < v.len()
                    invariant
                        i <= v.len(),
                        out@.len() == i,
                        forall|j: int| 0 <= j < i ==> out@[j]@ == v@[j]@,
                        self is Array,
                        self->Array_0 == *v,
                    decreases v.len() - i,
                {
                    assert(decreases_to!(*self => self->Array_0));
                    let item = v[i].clone();
                    out.push(item);
                    i += 1;
                }
                let copy = Frame::Array(out);
                assert(copy@->Array_0 =~= self@->Array_0);
                copy
            },
        }
    }
}

impl Frame {
    /// An empty array frame.
    pub fn array() -> (frame: Frame)
        ensures
            frame@ == FrameView::Array(Seq::empty()),
    {
        let frame = Frame::Array(Vec::new());
        assert(frame@->Array_0 =~= Seq::empty());
        frame
    }

    /// Whether the frame is an array.
    pub open spec fn is_array(&self) -> bool {
        self is Array
    }

    /// Adds a bulk frame to an array frame.
    pub fn push_bulk(&mut self, bytes: Bytes)
        requires
            old(self).is_array(),
        ensures
            final(self)@ == FrameView::Array(
                old(self)@->Array_0.push(FrameView::Bulk(bytes_view(bytes))),
            ),
    {
        proof {
            lemma_array_view(old(self)->Array_0);
        }
        match self {
            Frame::Array(vec) => {
                vec.push(Frame::Bulk(bytes));
            },
            _ => {},
        }
        proof {
            lemma_array_view(self->Array_0);
            assert(views_of(self->Array_0@) =~= views_of(old(self)->Array_0@).push(
                FrameView::Bulk(bytes_view(bytes)),
            ));
        }
    }

    /// Adds an integer frame to an array frame.
    pub fn push_int(&mut self, value: u64)
        requires
            old(self).is_array(),
        ensures
            final(self)@ == FrameView::Array(old(self)@->Array_0.push(FrameView::Integer(value))),
    {
        proof {
            lemma_array_view(old(self)->Array_0);
        }
        match self {
            Frame::Array(vec) => {
                vec.push(Frame::Integer(value));
            },
            _ => {},
        }
        proof {
            lemma_array_view(self->Array_0);
            assert(views_of(self->Array_0@) =~= views_of(old(self)->Array_0@).push(
                FrameView::Integer(value),
            ));
        }
    }

    /// The frame as it is shown to a reader.
    pub fn to_text(&self) -> (text: String)
        ensures
            text@ == display_text(self@),
        decreases self,
    {
        match self {
            Frame::Simple(response) => response.clone(),
            Frame::Error(msg) => "error: ".to_owned().concat(msg.as_str()),
            Frame::Integer(num) => u64_to_string(*num),
            Frame::Bulk(msg) => match string_from_utf8(slice_to_vec(bytes_as_slice(msg))) {
                Some(string) => string,
                None => bytes_debug(msg),
            },
            Frame::Null => "(nil)".to_owned(),
            Frame::Array(parts) => {
                let mut text = String::new();
                let ghost views = views_of(parts@);
                proof {
                    lemma_array_view(*parts);
                }
                if parts.len() <= 1 {
                    assert(display_rest(views, 1) =~= Seq::<char>::empty());
                    return text;
                }
                let mut i: usize = 1;
                while i < parts.len()
                    invariant
                        1 <= i <= parts.len(),
                        views == views_of(parts@),
                        self is Array,
                        self->Array_0 == *parts,
                        text@ + display_rest(views, i as int) == display_rest(views, 1),
                    decreases parts.len() - i,
                {
                    assert(decreases_to!(*self => self->Array_0));
                    let part = parts[i].to_text();
                    let ghost before = text@;
                    text = text.concat(" ");
                    text = text.concat(part.as_str());
                    assert(text@ + display_rest(views, i + 1) =~= before + display_rest(
                        views,
                        i as int,
                    ));
                    i += 1;
                }
                assert(text@ + Seq::<char>::empty() =~= text@);
                text
            },
        }
    }

    /// The frame as `{:?}` prints it.
    pub fn to_debug(&self) -> (text: String)
        ensures
            text@ == debug_text(self@),
        decreases self,
    {
        match self {
            Frame::Simple(text) => {
                let inner = str_debug(text.as_str());
                "Simple(".to_owned().concat(inner.as_str()).concat(")")
            },
            Frame::Error(msg) => {
                let inner = str_debug(msg.as_str());
                "Error(".to_owned().concat(inner.as_str()).concat(")")
            },
            Frame::Integer(num) => {
                let inner = u64_to_string(*num);
                "Integer(".to_owned().concat(inner.as_str()).concat(")")
            },
            Frame::Bulk(data) => {
                let inner = bytes_debug(data);
                "Bulk(".to_owned().concat(inner.as_str()).concat(")")
            },
            Frame::Null => "Null".to_owned(),
            Frame::Array(items) => {
                let mut text = String::new();
                let ghost views = views_of(items@);
                proof {
                    lemma_array_view(*items);
                }
                let mut i: usize = 0;
                while i < items.len()
                    invariant
                        i <= items.len(),
                        views == views_of(items@),
                        self is Array,
                        self->Array_0 == *items,
                        text@ + debug_list(views, i as int) == debug_list(views, 0),
                    decreases items.len() - i,
                {
                    assert(decreases_to!(*self => self->Array_0));
                    let item = items[i].to_debug();
                    let ghost before = text@;
                    text = text.concat(item.as_str());
                    if i + 1 < items.len() {
                        text = text.concat(", ");
                    }
                    assert(text@ + debug_list(views, i + 1) =~= before + debug_list(
                        views,
                        i as int,
                    ));
                    i += 1;
                }
                assert(text@ + Seq::<char>::empty() =~= text@);
                "Array([".to_owned().concat(text.as_str()).concat("])")
            },
        }
    }

    /// The error for a frame that was not expected, as text.
    pub fn to_error(&self) -> (text: String)
        ensures
            text@ == unexpected_text(self@),
    {
        "unexpected frame: ".to_owned().concat(self.to_text().as_str())
    }

    /// Whether the frame is the text `other`.
    pub fn eq_str(&self, other: &str) -> (same: bool)
        ensures
            same == is_text(self@, other@),
    {
        match self {
            Frame::Simple(s) => *s == other.to_owned(),
            Frame::Bulk(s) => same_bytes(bytes_as_slice(s), other.as_bytes()),
            _ => false,
        }
    }

    /// Tells whether a whole frame starts at the cursor, without building
    /// it. On success the cursor stands after the frame.
    pub fn check(src: &mut Cursor) -> (r: Result<(), Error>)
        ensures
            final(src).data == old(src).data,
            match r {
                Ok(()) => spec_check(old(src).data@, old(src).pos as int) == Ok::<int, ErrorView>(
                    final(src).pos as int,
                ),
                Err(e) => spec_check(old(src).data@, old(src).pos as int) == Err::<int, ErrorView>(
                    e@,
                ),
            },
        decreases old(src).data@.len() - old(src).pos,
    {
        let ghost s = src.data@;
        let ghost start = src.pos as int;
        let first = get_u8(src)?;
        proof {
            lemma_find_crlf(s, start + 1);
        }
        if first == PLUS || first == MINUS {
            get_line(src)?;
            assert(spec_check(s, start) == Ok::<int, ErrorView>(src.pos as int));
            Ok(())
        } else if first == COLON {
            get_decimal(src)?;
            assert(spec_check(s, start) == Ok::<int, ErrorView>(src.pos as int));
            Ok(())
        } else if first == DOLLAR {
            let next = peek_u8(src)?;
            if next == MINUS {
                skip(src, 4)?;
                assert(spec_check(s, start) == Ok::<int, ErrorView>(src.pos as int));
                Ok(())
            } else {
                let n = get_decimal(src)?;
                if n > usize::MAX as u64 {
                    return Err(invalid_format());
                }
                let len = src.data.len();
                match (n as usize).checked_add(2) {
                    Some(total) => {
                        skip(src, total)?;
                        assert(spec_check(s, start) == Ok::<int, ErrorView>(src.pos as int));
                        Ok(())
                    },
                    None => Err(Error::Incomplete),
                }
            }
        } else if first == STAR {
            let n = get_decimal(src)?;
            let mut i: u64 = 0;
            while i < n
                invariant
                    i <= n,
                    src.data@ == s,
                    src.data == old(src).data,
                    start == old(src).pos,
                    start < src.pos <= s.len(),
                    spec_check(s, start) == spec_check_seq(s, src.pos as int, (n - i) as nat),
                decreases n - i,
            {
                proof {
                    lemma_check_advances(s, src.pos as int);
                }
                Frame::check(src)?;
                i += 1;
            }
            assert(spec_check(s, start) == Ok::<int, ErrorView>(src.pos as int));
            Ok(())
        } else {
            Err(invalid_type(first))
        }
    }

    /// Reads the text of a line: the bytes must be valid UTF-8.
    fn text_of(line: &[u8]) -> (r: Result<String, Error>)
        ensures
            match r {
                Ok(text) => spec_text(line@) == Ok::<Seq<char>, ErrorView>(text@),
                Err(e) => spec_text(line@) == Err::<Seq<char>, ErrorView>(e@),
            },
    {
        match string_from_utf8(slice_to_vec(line)) {
            Some(text) => Ok(text),
            None => Err(invalid_format()),
        }
    }

    /// Builds the frame that starts at the cursor. On success the cursor
    /// stands after the frame.
    pub fn parse(src: &mut Cursor) -> (r: Result<Frame, Error>)
        ensures
            final(src).data == old(src).data,
            match r {
                Ok(frame) => spec_parse(old(src).data@, old(src).pos as int) == Ok::<
                    (FrameView, int),
                    ErrorView,
                >((frame@, final(src).pos as int)),
                Err(e) => spec_parse(old(src).data@, old(src).pos as int) == Err::<
                    (FrameView, int),
                    ErrorView,
                >(e@),
            },
        decreases old(src).data@.len() - old(src).pos,
    {
        let ghost s = src.data@;
        let ghost start = src.pos as int;
        let first = get_u8(src)?;
        proof {
            lemma_find_crlf(s, start + 1);
        }
        if first == PLUS {
            let line = get_line(src)?;
            let text = Frame::text_of(line)?;
            Ok(Frame::Simple(text))
        } else if first == MINUS {
            let line = get_line(src)?;
            let text = Frame::text_of(line)?;
            Ok(Frame::Error(text))
        } else if first == COLON {
            let n = get_decimal(src)?;
            Ok(Frame::Integer(n))
        } else if first == DOLLAR {
            let next = peek_u8(src)?;
            if next == MINUS {
                let line = get_line(src)?;
                if line.len() == 2 && line[0] == MINUS && line[1] == 49u8 {
                    assert(line@ =~= null_line());
                    Ok(Frame::Null)
                } else {
                    Err(invalid_format())
                }
            } else {
                let n = get_decimal(src)?;
                if n > usize::MAX as u64 {
                    return Err(invalid_format());
                }
                let len = n as usize;
                let size = src.data.len();
                match len.checked_add(2) {
                    Some(total) => {
                        if src.remaining() < total {
                            return Err(Error::Incomplete);
                        }
                        let data = bytes_copy_from_slice(
                            slice_subrange(src.data, src.pos, src.pos + len),
                        );
                        src.pos = src.pos + total;
                        Ok(Frame::Bulk(data))
                    },
                    None => Err(Error::Incomplete),
                }
            }
        } else if first == STAR {
            let n = get_decimal(src)?;
            if n > usize::MAX as u64 {
                return Err(invalid_format());
            }
            let ghost first_item = src.pos as int;
            let ghost views: Seq<FrameView> = Seq::empty();
            let mut out: Vec<Frame> = Vec::new();
            let mut i: u64 = 0;
            while i < n
                invariant
                    i <= n,
                    src.data@ == s,
                    src.data == old(src).data,
                    start == old(src).pos,
                    start < first_item <= src.pos <= s.len(),
                    views.len() == out@.len(),
                    forall|j: int| 0 <= j < views.len() ==> #[trigger] views[j] == out@[j]@,
                    spec_parse(s, start) == as_array(spec_parse_seq(s, first_item, n as nat)),
                    spec_parse_seq(s, first_item, n as nat) == prepend(
                        views,
                        spec_parse_seq(s, src.pos as int, (n - i) as nat),
                    ),
                decreases n - i,
            {
                proof {
                    lemma_parse_advances(s, src.pos as int);
                }
                let ghost before = src.pos as int;
                let item = Frame::parse(src)?;
                proof {
                    let rest = spec_parse_seq(s, src.pos as int, (n - i - 1) as nat);
                    assert(spec_parse_seq(s, before, (n - i) as nat) == prepend(seq![item@], rest));
                    if let Ok((more, end)) = rest {
                        assert(views + (seq![item@] + more) =~= views.push(item@) + more);
                    }
                    views = views.push(item@);
                }
                out.push(item);
                i += 1;
            }
            let frame = Frame::Array(out);
            assert(views + Seq::<FrameView>::empty() =~= views);
            proof {
                lemma_array_view(out);
                assert(views_of(out@) =~= views);
            }
            Ok(frame)
        } else {
            Err(invalid_type(first))
        }
    }
}

} // verus!
