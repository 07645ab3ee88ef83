//! The codec of one connection: a read buffer from which whole frames are
//! taken, and the bytes of the frames written, in the order in which they
//! are to reach the transport.

use crate::frame::{
    error_text, lemma_array_view, spec_check, spec_encode, spec_encode_seq, spec_parse, views_of,
    Cursor, Error, ErrorView, Frame, FrameView, COLON, DOLLAR, MINUS, PLUS, STAR,
};
use crate::payload::{
    bytes_as_slice, bytes_mut_advance, bytes_mut_as_slice, bytes_mut_extend_from_slice,
    bytes_mut_view, bytes_mut_with_capacity,
};
use crate::text::{crlf, decimal_bytes, CR, LF, ZERO};
use bytes::BytesMut;
use vstd::prelude::*;

verus! {

/// What the read buffer holds at its start.
pub enum Decoded {
    /// A whole frame, and the number of bytes it takes.
    Frame(FrameView, int),
    /// The start of a frame: more bytes are needed.
    Pending,
    /// Bytes that are no frame; the text says why.
    Failed(Seq<char>),
}

/// What `parse_frame` finds in a buffer that holds `s`: the buffer is
/// checked first, and only a buffer that passes is parsed.
pub open spec fn spec_decode(s: Seq<u8>) -> Decoded {
    match spec_check(s, 0) {
        Ok(len) => match spec_parse(s, 0) {
            Ok((frame, _)) => Decoded::Frame(frame, len),
            Err(e) => Decoded::Failed(error_text(e)),
        },
        Err(ErrorView::Incomplete) => Decoded::Pending,
        Err(ErrorView::Other(msg)) => Decoded::Failed(msg),
    }
}

/// The text of the error for a stream that ends inside a frame.
pub open spec fn reset_text() -> Seq<char> {
    "connection reset by peer"@
}

/// What one turn of reading gives.
#[derive(Debug, PartialEq, Eq)]
pub enum Read {
    /// A whole frame was in the buffer.
    Frame(Frame),
    /// No whole frame yet: the transport is to be read, and what it gives fed.
    Pending,
    /// The stream has ended between two frames.
    Closed,
}

/// Sends and receives frames. The transport itself is not held here: bytes
/// that arrive are fed in, and the bytes of the frames written are taken out.
pub struct Connection {
    buffer: BytesMut,
    out: Vec<u8>,
}

impl Connection {
    /// The bytes received and not yet taken as frames.
    pub closed spec fn input(&self) -> Seq<u8> {
        bytes_mut_view(self.buffer)
    }

    /// The bytes written and not yet taken for the transport.
    pub closed spec fn output(&self) -> Seq<u8> {
        self.out@
    }

    /// A connection with empty buffers.
    pub fn new() -> (connection: Connection)
        ensures
            connection.input() == Seq::<u8>::empty(),
            connection.output() == Seq::<u8>::empty(),
    {
        Connection { buffer: bytes_mut_with_capacity(4096), out: Vec::new() }
    }

    /// Adds bytes that the transport gave to the read buffer.
    pub fn feed(&mut self, data: &[u8])
        ensures
            final(self).input() == old(self).input() + data@,
            final(self).output() == old(self).output(),
    {
        bytes_mut_extend_from_slice(&mut self.buffer, data);
    }

    /// Hands out the bytes written so far, for the transport, and forgets
    /// them.
    pub fn take_output(&mut self) -> (bytes: Vec<u8>)
        ensures
            bytes@ == old(self).output(),
            final(self).output() == Seq::<u8>::empty(),
            final(self).input() == old(self).input(),
    {
        let mut bytes: Vec<u8> = Vec::new();
        std::mem::swap(&mut bytes, &mut self.out);
        bytes
    }

    /// Takes one frame from the read buffer, if a whole one is there.
    pub fn parse_frame(&mut self) -> (r: Result<Option<Frame>, String>)
        ensures
            final(self).output() == old(self).output(),
            match spec_decode(old(self).input()) {
                Decoded::Frame(frame, len) => r matches Ok(Some(f)) && f@ == frame && 0 <= len
                    <= old(self).input().len() && final(self).input() == old(self).input().subrange(
                    len,
                    old(self).input().len() as int,
                ),
                Decoded::Pending => r matches Ok(None) && final(self).input() == old(self).input(),
                Decoded::Failed(msg) => r matches Err(e) && e@ == msg && final(self).input() == old(
                    self,
                ).input(),
            },
    {
        let mut buf = Cursor::new(bytes_mut_as_slice(&self.buffer));
        match Frame::check(&mut buf) {
            Ok(()) => {
                let len = buf.position();
                buf.set_position(0);
                match Frame::parse(&mut buf) {
                    Ok(frame) => {
                        proof {
                            crate::frame::lemma_check_advances(old(self).input(), 0);
                        }
                        bytes_mut_advance(&mut self.buffer, len);
                        Ok(Some(frame))
                    },
                    Err(e) => Err(e.into_text()),
                }
            },
            Err(Error::Incomplete) => Ok(None),
            Err(e) => Err(e.into_text()),
        }
    }

    /// One turn of reading a frame. `eof` tells that the transport has
    /// ended: then a buffer that holds the start of a frame is an error.
    pub fn read_frame(&mut self, eof: bool) -> (r: Result<Read, String>)
        ensures
            final(self).output() == old(self).output(),
            match spec_decode(old(self).input()) {
                Decoded::Frame(frame, len) => r matches Ok(Read::Frame(f)) && f@ == frame && 0
                    <= len <= old(self).input().len() && final(self).input() == old(
                    self,
                ).input().subrange(len, old(self).input().len() as int),
                Decoded::Pending => final(self).input() == old(self).input() && (if !eof {
                    r matches Ok(Read::Pending)
                } else if old(self).input().len() == 0 {
                    r matches Ok(Read::Closed)
                } else {
                    r matches Err(e) && e@ == reset_text()
                }),
                Decoded::Failed(msg) => r matches Err(e) && e@ == msg && final(self).input() == old(
                    self,
                ).input(),
            },
    {
        match self.parse_frame()? {
            Some(frame) => Ok(Read::Frame(frame)),
            None => {
                if !eof {
                    Ok(Read::Pending)
                } else if bytes_mut_as_slice(&self.buffer).len() == 0 {
                    Ok(Read::Closed)
                } else {
                    Err("connection reset by peer".to_owned())
                }
            },
        }
    }

    /// Writes a frame: its bytes are added to the output.
    pub fn write_frame(&mut self, frame: &Frame)
        ensures
            final(self).output() == old(self).output() + spec_encode(frame@),
            final(self).input() == old(self).input(),
    {
        self.write_value(frame);
    }

    /// Writes a frame of any kind, an array's items one after the other.
    fn write_value(&mut self, frame: &Frame)
        ensures
            final(self).output() == old(self).output() + spec_encode(frame@),
            final(self).input() == old(self).input(),
        decreases frame,
    {
        let ghost before = self.out@;
        match frame {
            Frame::Simple(val) => {
                self.out.push(PLUS);
                self.write_all(val.as_str().as_bytes());
                self.write_all(&[CR, LF]);
                assert(self.out@ =~= before + spec_encode(frame@));
            },
            Frame::Error(val) => {
                self.out.push(MINUS);
                self.write_all(val.as_str().as_bytes());
                self.write_all(&[CR, LF]);
                assert(self.out@ =~= before + spec_encode(frame@));
            },
            Frame::Integer(val) => {
                self.out.push(COLON);
                self.write_decimal(*val);
                assert(self.out@ =~= before + spec_encode(frame@));
            },
            Frame::Null => {
                self.write_all(&[DOLLAR, MINUS, 49u8, CR, LF]);
                assert(self.out@ =~= before + spec_encode(frame@));
            },
            Frame::Bulk(val) => {
                let data = bytes_as_slice(val);
                self.out.push(DOLLAR);
                self.write_decimal(data.len() as u64);
                self.write_all(data);
                self.write_all(&[CR, LF]);
                assert(self.out@ =~= before + spec_encode(frame@));
            },
            Frame::Array(val) => {
                self.out.push(STAR);
                self.write_decimal(val.len() as u64);
                let ghost head = self.out@;
                let ghost views = views_of(val@);
                proof {
                    lemma_array_view(*val);
                    assert(views.subrange(0, views.len() as int) =~= views);
                }
                let mut i: usize = 0;
                while i < val.len()
                    invariant
                        i <= val.len(),
                        views == views_of(val@),
                        frame is Array,
                        frame->Array_0 == *val,
                        self.input() == old(self).input(),
                        self.out@ + spec_encode_seq(views.subrange(i as int, views.len() as int))
                            == head + spec_encode_seq(views),
                    decreases val.len() - i,
                {
                    let ghost tail = views.subrange(i as int, views.len() as int);
                    assert(tail.subrange(1, tail.len() as int) =~= views.subrange(
                        i + 1,
                        views.len() as int,
                    ));
                    assert(decreases_to!(*frame => frame->Array_0));
                    let ghost sofar = self.out@;
                    self.write_value(&val[i]);
                    assert(self.out@ + spec_encode_seq(views.subrange(i + 1, views.len() as int))
                        =~= sofar + spec_encode_seq(tail));
                    i += 1;
                }
                assert(self.out@ =~= before + spec_encode(frame@));
            },
        }
    }

    /// Writes bytes as they are.
    fn write_all(&mut self, data: &[u8])
        ensures
            final(self).output() == old(self).output() + data@,
            final(self).input() == old(self).input(),
    {
        let mut i: usize = 0;
        while i < data.len()
            invariant
                i <= data.len(),
                self.input() == old(self).input(),
                self.out@ == old(self).out@ + data@.subrange(0, i as int),
            decreases data.len() - i,
        {
            self.out.push(data[i]);
            assert(self.out@ =~= old(self).out@ + data@.subrange(0, i + 1));
            i += 1;
        }
        assert(data@.subrange(0, data@.len() as int) =~= data@);
    }

    /// Writes the digits of a number.
    fn write_digits(&mut self, val: u64)
        ensures
            final(self).output() == old(self).output() + decimal_bytes(val as nat),
            final(self).input() == old(self).input(),
        decreases val,
    {
        if val >= 10 {
            self.write_digits(val / 10);
        }
        self.out.push(ZERO + (val % 10) as u8);
        assert(self.out@ =~= old(self).out@ + decimal_bytes(val as nat));
    }

    /// Writes a number in base ten, and the end of the line.
    fn write_decimal(&mut self, val: u64)
        ensures
            final(self).output() == old(self).output() + decimal_bytes(val as nat) + crlf(),
            final(self).input() == old(self).input(),
    {
        self.write_digits(val);
        self.write_all(&[CR, LF]);
        assert(self.out@ =~= old(self).out@ + decimal_bytes(val as nat) + crlf());
    }
}

} // verus!
