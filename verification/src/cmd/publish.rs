//! `PUBLISH channel message`.

use crate::cmd::{cmd_name, CommandView};
use crate::connection::Connection;
use crate::db::Db;
use crate::frame::{spec_encode, Frame, FrameView};
use crate::parse::{as_bytes, as_string, Parse, ParseError, ParseErrorView};
use crate::payload::{bytes_copy_from_slice, bytes_view};
use bytes::Bytes;
use vstd::prelude::*;
use vstd::utf8::encode_utf8;

verus! {

/// Sends a message to a channel.
#[derive(Debug, PartialEq, Eq)]
pub struct Publish {
    channel: String,
    message: Bytes,
}

/// What `PUBLISH` reads from the entries after its name, and how many
/// entries it takes.
pub open spec fn spec_publish(args: Seq<FrameView>) -> Result<(CommandView, int), ParseErrorView> {
    if args.len() == 0 {
        Err(ParseErrorView::EndOfStream)
    } else {
        match as_string(args[0]) {
            Err(e) => Err(e),
            Ok(channel) => if args.len() == 1 {
                Err(ParseErrorView::EndOfStream)
            } else {
                match as_bytes(args[1]) {
                    Err(e) => Err(e),
                    Ok(message) => Ok((CommandView::Publish { channel, message }, 2)),
                }
            },
        }
    }
}

/// The frame that stands for `PUBLISH channel message`.
pub open spec fn publish_frame(channel: Seq<char>, message: Seq<u8>) -> FrameView {
    FrameView::Array(
        seq![
            FrameView::Bulk(cmd_name("publish"@)),
            FrameView::Bulk(encode_utf8(channel)),
            FrameView::Bulk(message),
        ],
    )
}

impl View for Publish {
    type V = CommandView;

    open spec fn view(&self) -> CommandView {
        CommandView::Publish { channel: self.spec_channel(), message: self.spec_message() }
    }
}

impl Publish {
    /// The channel's name.
    pub closed spec fn spec_channel(&self) -> Seq<char> {
        self.channel@
    }

    /// The message's bytes.
    pub closed spec fn spec_message(&self) -> Seq<u8> {
        bytes_view(self.message)
    }

    /// A `PUBLISH` of `message` on `channel`.
    pub fn new(channel: &str, message: Bytes) -> (publish: Publish)
        ensures
            publish@ == (CommandView::Publish { channel: channel@, message: bytes_view(message) }),
    {
        Publish { channel: channel.to_owned(), message }
    }

    /// Reads a `PUBLISH` from the entries after the command's name.
    pub fn parse_frames(parse: &mut Parse) -> (r: Result<Publish, ParseError>)
        ensures
            match r {
                Ok(publish) => spec_publish(old(parse).remaining()) == Ok::<
                    (CommandView, int),
                    ParseErrorView,
                >((publish@, 2)) && final(parse).remaining() == old(parse).remaining().subrange(
                    2,
                    old(parse).remaining().len() as int,
                ),
                Err(e) => spec_publish(old(parse).remaining()) == Err::<
                    (CommandView, int),
                    ParseErrorView,
                >(e@),
            },
    {
        let ghost args = parse.remaining();
        let channel = parse.next_string()?;
        let message = parse.next_bytes()?;
        assert(parse.remaining() =~= args.subrange(2, args.len() as int));
        Ok(Publish { channel, message })
    }

    /// Sends the message and answers with the number of subscribers that
    /// the channel had, which also comes back. It is zero where the channel
    /// does not exist.
    pub fn apply(self, db: &Db, dst: &mut Connection) -> (count: usize)
        requires
            db.wf(),
        ensures
            final(dst).input() == old(dst).input(),
            final(dst).output() == old(dst).output() + spec_encode(
                FrameView::Integer(count as u64),
            ),
            !db@.channels.contains(self.spec_channel()) ==> count == 0,
    {
        let num_subscribers = db.publish(self.channel.as_str(), self.message);
        let response = Frame::Integer(num_subscribers as u64);
        dst.write_frame(&response);
        num_subscribers
    }

    /// The command as a frame, for the wire.
    pub fn into_frame(self) -> (frame: Frame)
        ensures
            frame@ == publish_frame(self.spec_channel(), self.spec_message()),
    {
        let mut frame = Frame::array();
        frame.push_bulk(bytes_copy_from_slice("publish".as_bytes()));
        frame.push_bulk(bytes_copy_from_slice(self.channel.as_str().as_bytes()));
        frame.push_bulk(self.message);
        assert(frame@->Array_0 =~= publish_frame(
            self.spec_channel(),
            self.spec_message(),
        )->Array_0);
        frame
    }
}

} // verus!
