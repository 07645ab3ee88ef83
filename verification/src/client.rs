//! The client's side of the protocol: the requests it writes and what it
//! makes of the answers. The transport is not held here: a request is
//! written to the connection's output, and what the connection reads is
//! handed to the function that takes the answer.

use crate::cmd::{Get, Publish, SetCmd, Subscribe, Unsubscribe};
use crate::cmd::get::get_frame;
use crate::cmd::publish::publish_frame;
use crate::cmd::set::set_frame;
use crate::cmd::subscribe::{channels_frame, texts_of};
use crate::connection::Connection;
use crate::frame::{
    display_text, is_text, lemma_array_view, spec_encode, unexpected_text, Frame, FrameView,
};
use crate::payload::{bytes_copy_from_slice, bytes_view};
use crate::time::Duration;
use bytes::Bytes;
use vstd::prelude::*;
use vstd::utf8::encode_utf8;

verus! {

/// A connection to a server, in command mode.
pub struct Client {
    connection: Connection,
}

/// A connection to a server, in subscriber mode: it can only subscribe,
/// unsubscribe and take messages.
pub struct Subscriber {
    client: Client,
    subscribed_channels: Vec<String>,
}

/// A message that came on a channel.
#[derive(Debug, PartialEq, Eq)]
pub struct Message {
    pub channel: String,
    pub content: Bytes,
}

/// The text of the error for a server that closed the connection in place
/// of an answer.
pub open spec fn reset_by_server() -> Seq<char> {
    "connection reset by server"@
}

/// An answer as the client takes it: an error frame is an error with the
/// frame's text, and so is the end of the stream.
pub open spec fn spec_response(response: Option<FrameView>) -> Result<FrameView, Seq<char>> {
    match response {
        Some(FrameView::Error(msg)) => Err(msg),
        Some(frame) => Ok(frame),
        None => Err(reset_by_server()),
    }
}

/// What an answer to `GET` says: the value, or that there is none.
pub open spec fn spec_get_response(response: Option<FrameView>) -> Result<
    Option<Seq<u8>>,
    Seq<char>,
> {
    match spec_response(response) {
        Err(e) => Err(e),
        Ok(FrameView::Simple(value)) => Ok(Some(encode_utf8(value))),
        Ok(FrameView::Bulk(value)) => Ok(Some(value)),
        Ok(FrameView::Null) => Ok(None),
        Ok(frame) => Err(unexpected_text(frame)),
    }
}

/// What an answer to `SET` says: only `OK` is no error.
pub open spec fn spec_set_response(response: Option<FrameView>) -> Result<(), Seq<char>> {
    match spec_response(response) {
        Err(e) => Err(e),
        Ok(frame) => if frame == FrameView::Simple("OK"@) {
            Ok(())
        } else {
            Err(unexpected_text(frame))
        },
    }
}

/// What an answer to `PUBLISH` says: the number of subscribers.
pub open spec fn spec_publish_response(response: Option<FrameView>) -> Result<u64, Seq<char>> {
    match spec_response(response) {
        Err(e) => Err(e),
        Ok(FrameView::Integer(n)) => Ok(n),
        Ok(frame) => Err(unexpected_text(frame)),
    }
}

/// Whether a frame is a notice about `channel` that starts with `word`.
pub open spec fn is_notice(frame: FrameView, word: Seq<char>, channel: Seq<char>) -> bool {
    frame matches FrameView::Array(items) && items.len() >= 2 && is_text(items[0], word) && is_text(
        items[1],
        channel,
    )
}

/// What an answer to a subscription to `channel` says.
pub open spec fn spec_subscribe_response(response: Option<FrameView>, channel: Seq<char>) -> Result<
    (),
    Seq<char>,
> {
    match spec_response(response) {
        Err(e) => Err(e),
        Ok(frame) => if is_notice(frame, "subscribe"@, channel) {
            Ok(())
        } else {
            Err(unexpected_text(frame))
        },
    }
}

/// The message that a frame carries, as channel and content, if it carries
/// one: an array of the word `message`, the channel and the content.
pub open spec fn spec_message(frame: FrameView) -> Result<(Seq<char>, Seq<u8>), Seq<char>> {
    match frame {
        FrameView::Array(items) => if items.len() == 3 && is_text(items[0], "message"@) {
            Ok((display_text(items[1]), encode_utf8(display_text(items[2]))))
        } else {
            Err(unexpected_text(frame))
        },
        _ => Err(unexpected_text(frame)),
    }
}

/// The names that are not the text of `channel`.
pub open spec fn others(names: Seq<Seq<char>>, channel: FrameView) -> Seq<Seq<char>> {
    names.filter(|name: Seq<char>| !is_text(channel, name))
}

/// Whether a frame is a notice that a subscription has ended.
pub open spec fn is_unsubscribe_notice(frame: FrameView) -> bool {
    frame matches FrameView::Array(items) && items.len() >= 2 && is_text(items[0], "unsubscribe"@)
}

/// What an answer to an `UNSUBSCRIBE` does to the list of channels, and
/// whether it is an error: the channel it names must be on the list exactly
/// once, and leaves it.
pub open spec fn spec_unsubscribe_response(names: Seq<Seq<char>>, response: Option<FrameView>) -> (
    Seq<Seq<char>>,
    Result<(), Seq<char>>,
) {
    match spec_response(response) {
        Err(e) => (names, Err(e)),
        Ok(frame) => if !is_unsubscribe_notice(frame) {
            (names, Err(unexpected_text(frame)))
        } else if names.len() == 0 {
            (names, Err(unexpected_text(frame)))
        } else {
            let left = others(names, frame->Array_0[1]);
            if left.len() == names.len() - 1 {
                (left, Ok(()))
            } else {
                (left, Err(unexpected_text(frame)))
            }
        },
    }
}

/// The number of answers that an `UNSUBSCRIBE` from `channels` brings: one
/// for each channel named, or for each channel that the client has if none
/// is named.
pub open spec fn expected_notices(names: Seq<Seq<char>>, channels: Seq<Seq<char>>) -> nat {
    if channels.len() == 0 {
        names.len()
    } else {
        channels.len()
    }
}

impl Client {
    /// The connection.
    pub closed spec fn conn(&self) -> Connection {
        self.connection
    }

    /// A client on a connection.
    pub fn new(connection: Connection) -> (client: Client)
        ensures
            client.conn() == connection,
    {
        Client { connection }
    }

    /// The connection, for the transport to feed and to drain.
    pub fn connection(&mut self) -> (connection: &mut Connection)
        ensures
            *connection == old(self).conn(),
            final(self).conn() == *final(connection),
    {
        &mut self.connection
    }

    /// Takes an answer: an error frame is an error, and so is the end of
    /// the stream.
    pub fn read_response(response: Option<Frame>) -> (r: Result<Frame, String>)
        ensures
            match r {
                Ok(frame) => spec_response(view_of(response)) == Ok::<FrameView, Seq<char>>(frame@),
                Err(e) => spec_response(view_of(response)) == Err::<FrameView, Seq<char>>(e@),
            },
    {
        match response {
            Some(Frame::Error(msg)) => Err(msg),
            Some(frame) => Ok(frame),
            None => Err("connection reset by server".to_owned()),
        }
    }

    /// Asks for the value of `key`: the request is written.
    pub fn get(&mut self, key: &str)
        ensures
            final(self).conn().input() == old(self).conn().input(),
            final(self).conn().output() == old(self).conn().output() + spec_encode(get_frame(key@)),
    {
        let frame = Get::new(key).into_frame();
        self.connection.write_frame(&frame);
    }

    /// Takes the answer to a `GET`.
    pub fn get_response(response: Option<Frame>) -> (r: Result<Option<Bytes>, String>)
        ensures
            match r {
                Ok(Some(value)) => spec_get_response(view_of(response)) == Ok::<
                    Option<Seq<u8>>,
                    Seq<char>,
                >(Some(bytes_view(value))),
                Ok(None) => spec_get_response(view_of(response)) == Ok::<
                    Option<Seq<u8>>,
                    Seq<char>,
                >(None),
                Err(e) => spec_get_response(view_of(response)) == Err::<
                    Option<Seq<u8>>,
                    Seq<char>,
                >(e@),
            },
    {
        match Client::read_response(response)? {
            Frame::Simple(value) => Ok(Some(bytes_copy_from_slice(value.as_str().as_bytes()))),
            Frame::Bulk(value) => Ok(Some(value)),
            Frame::Null => Ok(None),
            frame => Err(frame.to_error()),
        }
    }

    /// Binds `value` to `key` for good: the request is written.
    pub fn set(&mut self, key: &str, value: Bytes)
        ensures
            final(self).conn().input() == old(self).conn().input(),
            final(self).conn().output() == old(self).conn().output() + spec_encode(
                set_frame(key@, bytes_view(value), None),
            ),
    {
        self.set_cmd(SetCmd::new(key, value, None));
    }

    /// Binds `value` to `key` for the time `expiration`: the request is
    /// written.
    pub fn set_expires(&mut self, key: &str, value: Bytes, expiration: Duration)
        ensures
            final(self).conn().input() == old(self).conn().input(),
            final(self).conn().output() == old(self).conn().output() + spec_encode(
                set_frame(key@, bytes_view(value), Some(expiration)),
            ),
    {
        self.set_cmd(SetCmd::new(key, value, Some(expiration)));
    }

    /// Writes a `SET`.
    fn set_cmd(&mut self, cmd: SetCmd)
        ensures
            final(self).conn().input() == old(self).conn().input(),
            final(self).conn().output() == old(self).conn().output() + spec_encode(
                set_frame(cmd.spec_key(), cmd.spec_value(), cmd.spec_expire()),
            ),
    {
        let frame = cmd.into_frame();
        self.connection.write_frame(&frame);
    }

    /// Takes the answer to a `SET`.
    pub fn set_response(response: Option<Frame>) -> (r: Result<(), String>)
        ensures
            match r {
                Ok(()) => spec_set_response(view_of(response)) == Ok::<(), Seq<char>>(()),
                Err(e) => spec_set_response(view_of(response)) == Err::<(), Seq<char>>(e@),
            },
    {
        let frame = Client::read_response(response)?;
        let ok = match &frame {
            Frame::Simple(text) => *text == "OK".to_owned(),
            _ => false,
        };
        if ok {
            Ok(())
        } else {
            Err(frame.to_error())
        }
    }

    /// Publishes `message` on `channel`: the request is written.
    pub fn publish(&mut self, channel: &str, message: Bytes)
        ensures
            final(self).conn().input() == old(self).conn().input(),
            final(self).conn().output() == old(self).conn().output() + spec_encode(
                publish_frame(channel@, bytes_view(message)),
            ),
    {
        let frame = Publish::new(channel, message).into_frame();
        self.connection.write_frame(&frame);
    }

    /// Takes the answer to a `PUBLISH`: the number of subscribers.
    pub fn publish_response(response: Option<Frame>) -> (r: Result<u64, String>)
        ensures
            match r {
                Ok(n) => spec_publish_response(view_of(response)) == Ok::<u64, Seq<char>>(n),
                Err(e) => spec_publish_response(view_of(response)) == Err::<u64, Seq<char>>(e@),
            },
    {
        match Client::read_response(response)? {
            Frame::Integer(n) => Ok(n),
            frame => Err(frame.to_error()),
        }
    }

    /// Writes a `SUBSCRIBE` to `channels`.
    pub fn subscribe_cmd(&mut self, channels: &[String])
        ensures
            final(self).conn().input() == old(self).conn().input(),
            final(self).conn().output() == old(self).conn().output() + spec_encode(
                channels_frame("subscribe"@, texts_of(channels@)),
            ),
    {
        let frame = Subscribe::new(channels).into_frame();
        self.connection.write_frame(&frame);
    }

    /// Takes the answer to the subscription to `channel`.
    pub fn subscribe_response(response: Option<Frame>, channel: &str) -> (r: Result<(), String>)
        ensures
            match r {
                Ok(()) => spec_subscribe_response(view_of(response), channel@) == Ok::<
                    (),
                    Seq<char>,
                >(()),
                Err(e) => spec_subscribe_response(view_of(response), channel@) == Err::<
                    (),
                    Seq<char>,
                >(e@),
            },
    {
        let frame = Client::read_response(response)?;
        let ok = match &frame {
            Frame::Array(items) => {
                proof {
                    lemma_array_view(*items);
                }
                items.len() >= 2 && items[0].eq_str("subscribe") && items[1].eq_str(channel)
            },
            _ => false,
        };
        if ok {
            Ok(())
        } else {
            Err(frame.to_error())
        }
    }

    /// Turns the client into a subscriber to `channels`, once the server
    /// has answered for each of them.
    pub fn subscribe(self, channels: Vec<String>) -> (subscriber: Subscriber)
        ensures
            subscriber.conn() == self.conn(),
            subscriber.names() == texts_of(channels@),
    {
        Subscriber { client: self, subscribed_channels: channels }
    }
}

/// The model of an answer that may be missing.
pub open spec fn view_of(response: Option<Frame>) -> Option<FrameView> {
    match response {
        Some(frame) => Some(frame@),
        None => None,
    }
}

impl Subscriber {
    /// The connection.
    pub closed spec fn conn(&self) -> Connection {
        self.client.connection
    }

    /// The names of the channels subscribed to.
    pub closed spec fn names(&self) -> Seq<Seq<char>> {
        texts_of(self.subscribed_channels@)
    }

    /// The connection, for the transport to feed and to drain.
    pub fn connection(&mut self) -> (connection: &mut Connection)
        ensures
            *connection == old(self).conn(),
            final(self).conn() == *final(connection),
            final(self).names() == old(self).names(),
    {
        &mut self.client.connection
    }

    /// The channels subscribed to.
    pub fn get_subscribed(&self) -> (channels: &[String])
        ensures
            texts_of(channels@) == self.names(),
    {
        self.subscribed_channels.as_slice()
    }

    /// Takes what the connection read as the next message. The end of the
    /// stream is the end of the messages.
    pub fn next_message(frame: Option<Frame>) -> (r: Result<Option<Message>, String>)
        ensures
            match frame {
                None => r matches Ok(None),
                Some(mframe) => match r {
                    Ok(Some(message)) => spec_message(mframe@) == Ok::<
                        (Seq<char>, Seq<u8>),
                        Seq<char>,
                    >((message.channel@, bytes_view(message.content))),
                    Ok(None) => false,
                    Err(e) => spec_message(mframe@) == Err::<(Seq<char>, Seq<u8>), Seq<char>>(e@),
                },
            },
    {
        match frame {
            Some(mframe) => {
                let message = match &mframe {
                    Frame::Array(items) => {
                        proof {
                            lemma_array_view(*items);
                        }
                        if items.len() == 3 && items[0].eq_str("message") {
                            let channel = items[1].to_text();
                            let content = items[2].to_text();
                            Some(
                                Message {
                                    channel,
                                    content: bytes_copy_from_slice(content.as_str().as_bytes()),
                                },
                            )
                        } else {
                            None
                        }
                    },
                    _ => None,
                };
                match message {
                    Some(message) => Ok(Some(message)),
                    None => Err(mframe.to_error()),
                }
            },
            None => Ok(None),
        }
    }

    /// Writes a `SUBSCRIBE` to `channels`.
    pub fn subscribe_cmd(&mut self, channels: &[String])
        ensures
            final(self).names() == old(self).names(),
            final(self).conn().input() == old(self).conn().input(),
            final(self).conn().output() == old(self).conn().output() + spec_encode(
                channels_frame("subscribe"@, texts_of(channels@)),
            ),
    {
        self.client.subscribe_cmd(channels);
    }

    /// Adds `channels` to the list, once the server has answered for each
    /// of them.
    pub fn subscribe(&mut self, channels: &[String])
        ensures
            final(self).names() == old(self).names() + texts_of(channels@),
            final(self).conn() == old(self).conn(),
    {
        let ghost before = self.names();
        let mut i: usize = 0;
        while i < channels.len()
            invariant
                i <= channels.len(),
                self.conn() == old(self).conn(),
                before == old(self).names(),
                self.names() == before + texts_of(channels@).subrange(0, i as int),
            decreases channels.len() - i,
        {
            let ghost cur = self.names();
            self.subscribed_channels.push(channels[i].clone());
            assert(self.names() =~= cur.push(channels@[i as int]@));
            assert(cur.push(channels@[i as int]@) =~= before + texts_of(channels@).subrange(
                0,
                i + 1,
            ));
            i += 1;
        }
        assert(texts_of(channels@).subrange(0, channels@.len() as int) =~= texts_of(channels@));
    }

    /// Writes an `UNSUBSCRIBE` from `channels`, or from every channel if
    /// none is named, and tells how many answers are to come.
    pub fn unsubscribe(&mut self, channels: &[String]) -> (num: usize)
        ensures
            final(self).names() == old(self).names(),
            final(self).conn().input() == old(self).conn().input(),
            final(self).conn().output() == old(self).conn().output() + spec_encode(
                channels_frame("unsubscribe"@, texts_of(channels@)),
            ),
            num == expected_notices(old(self).names(), texts_of(channels@)),
    {
        let frame = Unsubscribe::new(channels).into_frame();
        self.client.connection.write_frame(&frame);
        if channels.len() == 0 {
            self.subscribed_channels.len()
        } else {
            channels.len()
        }
    }

    /// Takes one answer to an `UNSUBSCRIBE`: the channel that it names
    /// leaves the list. It is an error if the list is empty or the channel
    /// is not on it exactly once.
    pub fn unsubscribe_response(&mut self, response: Option<Frame>) -> (r: Result<(), String>)
        ensures
            final(self).conn() == old(self).conn(),
            final(self).names() == spec_unsubscribe_response(
                old(self).names(),
                view_of(response),
            ).0,
            match r {
                Ok(()) => spec_unsubscribe_response(old(self).names(), view_of(response)).1 == Ok::<
                    (),
                    Seq<char>,
                >(()),
                Err(e) => spec_unsubscribe_response(old(self).names(), view_of(response)).1 == Err::<
                    (),
                    Seq<char>,
                >(e@),
            },
    {
        let frame = Client::read_response(response)?;
        let notice = match &frame {
            Frame::Array(items) => {
                proof {
                    lemma_array_view(*items);
                }
                items.len() >= 2 && items[0].eq_str("unsubscribe")
            },
            _ => false,
        };
        if !notice {
            return Err(frame.to_error());
        }
        let len = self.subscribed_channels.len();
        if len == 0 {
            return Err(frame.to_error());
        }
        let ghost names = self.names();
        let ghost channel = frame@->Array_0[1];
        let mut kept: Vec<String> = Vec::new();
        let mut all: Vec<String> = Vec::new();
        std::mem::swap(&mut all, &mut self.subscribed_channels);
        let mut i: usize = 0;
        assert(names.subrange(0, 0) =~= Seq::<Seq<char>>::empty());
        while i < all.len()
            invariant
                i <= all.len(),
                self.conn() == old(self).conn(),
                names == texts_of(all@),
                frame is Array,
                frame@ is Array,
                frame->Array_0@.len() >= 2,
                channel == frame@->Array_0[1],
                channel == frame->Array_0@[1]@,
                texts_of(kept@) == others(names.subrange(0, i as int), channel),
            decreases all.len() - i,
        {
            let same = match &frame {
                Frame::Array(items) => items[1].eq_str(all[i].as_str()),
                _ => false,
            };
            proof {
                let head = names.subrange(0, i as int);
                let next = names.subrange(0, i + 1);
                assert(next.drop_last() =~= head);
                reveal(Seq::filter);
                assert(others(next, channel) == if !is_text(channel, names[i as int]) {
                    others(head, channel).push(names[i as int])
                } else {
                    others(head, channel)
                });
            }
            if !same {
                let ghost before = texts_of(kept@);
                kept.push(all[i].clone());
                assert(texts_of(kept@) =~= before.push(names[i as int]));
            }
            i += 1;
        }
        assert(names.subrange(0, names.len() as int) =~= names);
        self.subscribed_channels = kept;
        if self.subscribed_channels.len() != len - 1 {
            return Err(frame.to_error());
        }
        Ok(())
    }
}

} // verus!
