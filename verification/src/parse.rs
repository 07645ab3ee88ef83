//! Reading a command out of an array frame, entry by entry.

use crate::frame::{debug_text, lemma_array_view, views_of, Frame, FrameView};
use crate::payload::{bytes_as_slice, bytes_copy_from_slice, bytes_view};
use crate::text::{atoi_u64, leading_number, string_from_utf8};
use bytes::Bytes;
use vstd::prelude::*;
use vstd::slice::slice_to_vec;
use vstd::string::StringExecFns;
use vstd::utf8::{decode_utf8, encode_utf8, valid_utf8};

verus! {

/// Why an entry could not be read.
#[derive(Debug, PartialEq, Eq)]
pub enum ParseError {
    /// No entry is left.
    EndOfStream,
    /// The entry is not what was asked for; the text says why.
    Other(String),
}

/// The model of a [`ParseError`].
pub enum ParseErrorView {
    EndOfStream,
    Other(Seq<char>),
}

impl View for ParseError {
    type V = ParseErrorView;

    open spec fn view(&self) -> ParseErrorView {
        match self {
            ParseError::EndOfStream => ParseErrorView::EndOfStream,
            ParseError::Other(msg) => ParseErrorView::Other(msg@),
        }
    }
}

/// The text that stands for a parse error where errors are plain text.
pub open spec fn parse_error_text(e: ParseErrorView) -> Seq<char> {
    match e {
        ParseErrorView::EndOfStream => "protocol error; unexpected end of stream"@,
        ParseErrorView::Other(msg) => msg,
    }
}

impl ParseError {
    /// The error as plain text.
    pub fn into_text(self) -> (text: String)
        ensures
            text@ == parse_error_text(self@),
    {
        match self {
            ParseError::EndOfStream => "protocol error; unexpected end of stream".to_owned(),
            ParseError::Other(msg) => msg,
        }
    }
}

/// The error for a frame that is no array.
pub open spec fn expected_array(frame: FrameView) -> ParseErrorView {
    ParseErrorView::Other("protocol error; expected array, got "@ + debug_text(frame))
}

/// The error for an entry that is neither a simple nor a bulk frame.
pub open spec fn expected_text(frame: FrameView) -> ParseErrorView {
    ParseErrorView::Other(
        "protocol error; expected simple frame or bulk frame, got "@ + debug_text(frame),
    )
}

/// The error for an entry that cannot be a number.
pub open spec fn expected_int(frame: FrameView) -> ParseErrorView {
    ParseErrorView::Other("protocol error; expected int frame but got "@ + debug_text(frame))
}

/// The error for a bulk entry that is no text.
pub open spec fn invalid_string() -> ParseErrorView {
    ParseErrorView::Other("protocol error; invalid string"@)
}

/// The error for text that does not start with a number.
pub open spec fn invalid_number() -> ParseErrorView {
    ParseErrorView::Other("protocol error; invalid number"@)
}

/// The error for entries left over.
pub open spec fn expected_end() -> ParseErrorView {
    ParseErrorView::Other("protocol error; expected end of frame, but there was more"@)
}

/// An entry read as text: a simple frame's text, or a bulk frame's bytes
/// where they are UTF-8.
pub open spec fn as_string(frame: FrameView) -> Result<Seq<char>, ParseErrorView> {
    match frame {
        FrameView::Simple(text) => Ok(text),
        FrameView::Bulk(data) => if valid_utf8(data) {
            Ok(decode_utf8(data))
        } else {
            Err(invalid_string())
        },
        _ => Err(expected_text(frame)),
    }
}

/// An entry read as bytes: a simple frame's text encoded, or a bulk frame's
/// bytes.
pub open spec fn as_bytes(frame: FrameView) -> Result<Seq<u8>, ParseErrorView> {
    match frame {
        FrameView::Simple(text) => Ok(encode_utf8(text)),
        FrameView::Bulk(data) => Ok(data),
        _ => Err(expected_text(frame)),
    }
}

/// The number at the start of `text`, or the error for none.
pub open spec fn number_in(text: Seq<u8>) -> Result<u64, ParseErrorView> {
    match leading_number(text) {
        Some(n) => Ok(n),
        None => Err(invalid_number()),
    }
}

/// An entry read as a number: an integer frame's value, or the number at
/// the start of a simple or bulk frame.
pub open spec fn as_int(frame: FrameView) -> Result<u64, ParseErrorView> {
    match frame {
        FrameView::Integer(v) => Ok(v),
        FrameView::Simple(text) => number_in(encode_utf8(text)),
        FrameView::Bulk(data) => number_in(data),
        _ => Err(expected_int(frame)),
    }
}

/// The entries that are left once the next one has been read: all but the
/// first.
pub open spec fn rest(entries: Seq<FrameView>) -> Seq<FrameView> {
    if entries.len() == 0 {
        entries
    } else {
        entries.subrange(1, entries.len() as int)
    }
}

/// The next entry read as text, or the error for none.
pub open spec fn next_string_of(entries: Seq<FrameView>) -> Result<Seq<char>, ParseErrorView> {
    if entries.len() == 0 {
        Err(ParseErrorView::EndOfStream)
    } else {
        as_string(entries[0])
    }
}

/// The next entry read as bytes, or the error for none.
pub open spec fn next_bytes_of(entries: Seq<FrameView>) -> Result<Seq<u8>, ParseErrorView> {
    if entries.len() == 0 {
        Err(ParseErrorView::EndOfStream)
    } else {
        as_bytes(entries[0])
    }
}

/// The next entry read as a number, or the error for none.
pub open spec fn next_int_of(entries: Seq<FrameView>) -> Result<u64, ParseErrorView> {
    if entries.len() == 0 {
        Err(ParseErrorView::EndOfStream)
    } else {
        as_int(entries[0])
    }
}

/// A cursor over the entries of an array frame.
pub struct Parse {
    /// The entries not yet read, the next one last.
    parts: Vec<Frame>,
}

impl Parse {
    /// The entries not yet read, the next one first.
    pub closed spec fn remaining(&self) -> Seq<FrameView> {
        views_of(self.parts@).reverse()
    }

    /// A cursor over the entries of `frame`, which must be an array.
    pub fn new(frame: Frame) -> (r: Result<Parse, ParseError>)
        ensures
            match frame@ {
                FrameView::Array(items) => r matches Ok(parse) && parse.remaining() == items,
                _ => r matches Err(e) && e@ == expected_array(frame@),
            },
    {
        match frame {
            Frame::Array(array) => {
                let mut array = array;
                let ghost items = views_of(array@);
                proof {
                    lemma_array_view(array);
                }
                let mut parts: Vec<Frame> = Vec::new();
                while array.len() > 0
                    invariant
                        views_of(array@) + views_of(parts@).reverse() =~= items,
                    decreases array.len(),
                {
                    let ghost left = views_of(array@);
                    let ghost taken = views_of(parts@);
                    match array.pop() {
                        Some(entry) => {
                            parts.push(entry);
                            assert(views_of(parts@) =~= taken.push(entry@));
                            assert(views_of(array@) =~= left.drop_last());
                            assert(left.drop_last() + taken.push(entry@).reverse() =~= left
                                + taken.reverse());
                        },
                        None => {},
                    }
                }
                let parse = Parse { parts };
                assert(parse.remaining() =~= items);
                Ok(parse)
            },
            frame => {
                let msg = "protocol error; expected array, got ".to_owned();
                let msg = msg.concat(frame.to_debug().as_str());
                Err(ParseError::Other(msg))
            },
        }
    }

    /// The next entry.
    fn next(&mut self) -> (r: Result<Frame, ParseError>)
        ensures
            final(self).remaining() == rest(old(self).remaining()),
            match r {
                Ok(frame) => old(self).remaining().len() > 0 && frame@ == old(self).remaining()[0],
                Err(e) => old(self).remaining().len() == 0 && e@ == ParseErrorView::EndOfStream,
            },
    {
        let ghost before = views_of(self.parts@);
        match self.parts.pop() {
            Some(frame) => {
                assert(views_of(self.parts@) =~= before.drop_last());
                assert(before.drop_last().reverse() =~= before.reverse().subrange(
                    1,
                    before.len() as int,
                ));
                Ok(frame)
            },
            None => Err(ParseError::EndOfStream),
        }
    }

    /// The error for an entry that is neither a simple nor a bulk frame.
    fn text_expected(frame: &Frame) -> (e: ParseError)
        ensures
            e@ == expected_text(frame@),
    {
        let msg = "protocol error; expected simple frame or bulk frame, got ".to_owned();
        let msg = msg.concat(frame.to_debug().as_str());
        ParseError::Other(msg)
    }

    /// The next entry as text.
    pub fn next_string(&mut self) -> (r: Result<String, ParseError>)
        ensures
            final(self).remaining() == rest(old(self).remaining()),
            match r {
                Ok(text) => next_string_of(old(self).remaining()) == Ok::<
                    Seq<char>,
                    ParseErrorView,
                >(text@),
                Err(e) => next_string_of(old(self).remaining()) == Err::<
                    Seq<char>,
                    ParseErrorView,
                >(e@),
            },
    {
        match self.next()? {
            Frame::Simple(s) => Ok(s),
            Frame::Bulk(data) => match string_from_utf8(slice_to_vec(bytes_as_slice(&data))) {
                Some(text) => Ok(text),
                None => Err(ParseError::Other("protocol error; invalid string".to_owned())),
            },
            frame => Err(Parse::text_expected(&frame)),
        }
    }

    /// The next entry as bytes.
    pub fn next_bytes(&mut self) -> (r: Result<Bytes, ParseError>)
        ensures
            final(self).remaining() == rest(old(self).remaining()),
            match r {
                Ok(data) => next_bytes_of(old(self).remaining()) == Ok::<Seq<u8>, ParseErrorView>(
                    bytes_view(data),
                ),
                Err(e) => next_bytes_of(old(self).remaining()) == Err::<Seq<u8>, ParseErrorView>(
                    e@,
                ),
            },
    {
        match self.next()? {
            Frame::Simple(s) => Ok(bytes_copy_from_slice(s.as_str().as_bytes())),
            Frame::Bulk(data) => Ok(data),
            frame => Err(Parse::text_expected(&frame)),
        }
    }

    /// The number at the start of `text`.
    fn number(text: &[u8]) -> (r: Result<u64, ParseError>)
        ensures
            match r {
                Ok(n) => number_in(text@) == Ok::<u64, ParseErrorView>(n),
                Err(e) => number_in(text@) == Err::<u64, ParseErrorView>(e@),
            },
    {
        match atoi_u64(text) {
            Some(n) => Ok(n),
            None => Err(ParseError::Other("protocol error; invalid number".to_owned())),
        }
    }

    /// The next entry as a number.
    pub fn next_int(&mut self) -> (r: Result<u64, ParseError>)
        ensures
            final(self).remaining() == rest(old(self).remaining()),
            match r {
                Ok(n) => next_int_of(old(self).remaining()) == Ok::<u64, ParseErrorView>(n),
                Err(e) => next_int_of(old(self).remaining()) == Err::<u64, ParseErrorView>(e@),
            },
    {
        match self.next()? {
            Frame::Integer(v) => Ok(v),
            Frame::Simple(data) => Parse::number(data.as_str().as_bytes()),
            Frame::Bulk(data) => Parse::number(bytes_as_slice(&data)),
            frame => {
                let msg = "protocol error; expected int frame but got ".to_owned();
                let msg = msg.concat(frame.to_debug().as_str());
                Err(ParseError::Other(msg))
            },
        }
    }

    /// Tells that no entry is left: the next one leaves the cursor, if there
    /// is one, and is an error.
    pub fn finish(&mut self) -> (r: Result<(), ParseError>)
        ensures
            final(self).remaining() == rest(old(self).remaining()),
            match r {
                Ok(()) => old(self).remaining().len() == 0,
                Err(e) => old(self).remaining().len() > 0 && e@ == expected_end(),
            },
    {
        match self.next() {
            Err(_) => Ok(()),
            Ok(_) => Err(
                ParseError::Other(
                    "protocol error; expected end of frame, but there was more".to_owned(),
                ),
            ),
        }
    }
}

} // verus!
