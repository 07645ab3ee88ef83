//! `SUBSCRIBE channel [channel ...]` and `UNSUBSCRIBE [channel ...]`.

use crate::cmd::{cmd_name, spec_from_frame, spec_name, Command, CommandView, Unknown};
use crate::cmd::unknown::unknown_text;
use crate::connection::Connection;
use crate::db::{Db, DbView};
use crate::frame::{spec_encode, Frame, FrameView};
use crate::parse::{as_string, Parse, ParseError, ParseErrorView};
use crate::payload::{bytes_copy_from_slice, bytes_view};
use crate::streams::{
    lemma_without, stream_names, streams_insert, streams_keys, streams_len, streams_remove, with,
    without, Subscriptions,
};
use bytes::Bytes;
use vstd::prelude::*;
use vstd::utf8::encode_utf8;

verus! {

/// Subscribes the client to one or more channels.
#[derive(Debug, PartialEq, Eq)]
pub struct Subscribe {
    channels: Vec<String>,
}

/// Unsubscribes the client from the channels named, or from all it has if
/// none is named.
#[derive(Debug, PartialEq, Eq)]
pub struct Unsubscribe {
    channels: Vec<String>,
}

/// The texts of a sequence of strings, in order.
pub open spec fn texts_of(strings: Seq<String>) -> Seq<Seq<char>> {
    strings.map_values(|s: String| s@)
}

/// `done` put before the texts of a result.
pub open spec fn ahead(done: Seq<Seq<char>>, r: Result<Seq<Seq<char>>, ParseErrorView>) -> Result<
    Seq<Seq<char>>,
    ParseErrorView,
> {
    match r {
        Err(e) => Err(e),
        Ok(rest) => Ok(done + rest),
    }
}

/// All the entries read as text, or the error of the first that is none.
pub open spec fn spec_strings(args: Seq<FrameView>) -> Result<Seq<Seq<char>>, ParseErrorView>
    decreases args.len(),
{
    if args.len() == 0 {
        Ok(Seq::empty())
    } else {
        match as_string(args[0]) {
            Err(e) => Err(e),
            Ok(text) => ahead(seq![text], spec_strings(args.subrange(1, args.len() as int))),
        }
    }
}

/// What `SUBSCRIBE` reads from the entries after its name: at least one
/// channel, and every entry is one.
pub open spec fn spec_subscribe(args: Seq<FrameView>) -> Result<
    (CommandView, int),
    ParseErrorView,
> {
    if args.len() == 0 {
        Err(ParseErrorView::EndOfStream)
    } else {
        match spec_strings(args) {
            Err(e) => Err(e),
            Ok(channels) => Ok((CommandView::Subscribe { channels }, args.len() as int)),
        }
    }
}

/// What `UNSUBSCRIBE` reads from the entries after its name: every entry is
/// a channel, and there may be none.
pub open spec fn spec_unsubscribe(args: Seq<FrameView>) -> Result<
    (CommandView, int),
    ParseErrorView,
> {
    match spec_strings(args) {
        Err(e) => Err(e),
        Ok(channels) => Ok((CommandView::Unsubscribe { channels }, args.len() as int)),
    }
}

/// The frame that stands for a command made of a word and channel names.
pub open spec fn channels_frame(word: Seq<char>, channels: Seq<Seq<char>>) -> FrameView {
    FrameView::Array(
        seq![FrameView::Bulk(cmd_name(word))] + channels.map_values(
            |c: Seq<char>| FrameView::Bulk(encode_utf8(c)),
        ),
    )
}

/// Reads every entry that is left as text.
fn parse_strings(parse: &mut Parse) -> (r: Result<Vec<String>, ParseError>)
    ensures
        match r {
            Ok(strings) => spec_strings(old(parse).remaining()) == Ok::<
                Seq<Seq<char>>,
                ParseErrorView,
            >(texts_of(strings@)) && final(parse).remaining().len() == 0,
            Err(e) => spec_strings(old(parse).remaining()) == Err::<
                Seq<Seq<char>>,
                ParseErrorView,
            >(e@),
        },
{
    let ghost args = parse.remaining();
    let mut strings: Vec<String> = Vec::new();
    assert(texts_of(strings@) =~= Seq::<Seq<char>>::empty());
    assert(ahead(Seq::empty(), spec_strings(args)) == spec_strings(args)) by {
        if let Ok(all) = spec_strings(args) {
            assert(Seq::<Seq<char>>::empty() + all =~= all);
        }
    }
    loop
        invariant
            spec_strings(args) == ahead(texts_of(strings@), spec_strings(parse.remaining())),
            args == old(parse).remaining(),
        decreases parse.remaining().len(),
    {
        let ghost left = parse.remaining();
        let ghost done = texts_of(strings@);
        match parse.next_string() {
            Ok(s) => {
                proof {
                    let rest = spec_strings(left.subrange(1, left.len() as int));
                    if let Ok(more) = rest {
                        assert(done + (seq![s@] + more) =~= done.push(s@) + more);
                    }
                }
                strings.push(s);
                assert(texts_of(strings@) =~= done.push(s@));
            },
            Err(ParseError::EndOfStream) => {
                assert(done + Seq::<Seq<char>>::empty() =~= done);
                return Ok(strings);
            },
            Err(err) => {
                return Err(err);
            },
        }
    }
}

/// A copy of the strings.
fn copy_strings(strings: &[String]) -> (copy: Vec<String>)
    ensures
        texts_of(copy@) == texts_of(strings@),
{
    let mut copy: Vec<String> = Vec::new();
    let mut i: usize = 0;
    while i < strings.len()
        invariant
            i <= strings.len(),
            copy@.len() == i,
            forall|j: int| 0 <= j < i ==> copy@[j]@ == strings@[j]@,
        decreases strings.len() - i,
    {
        copy.push(strings[i].clone());
        i += 1;
    }
    assert(texts_of(copy@) =~= texts_of(strings@));
    copy
}

/// The frame made of a word and channel names.
fn frame_of(word: &str, channels: Vec<String>) -> (frame: Frame)
    ensures
        frame@ == channels_frame(word@, texts_of(channels@)),
{
    let mut frame = Frame::array();
    frame.push_bulk(bytes_copy_from_slice(word.as_bytes()));
    let ghost goal = channels_frame(word@, texts_of(channels@))->Array_0;
    let mut i: usize = 0;
    while i < channels.len()
        invariant
            i <= channels.len(),
            frame.is_array(),
            goal == channels_frame(word@, texts_of(channels@))->Array_0,
            frame@->Array_0 =~= goal.subrange(0, i + 1),
        decreases channels.len() - i,
    {
        frame.push_bulk(bytes_copy_from_slice(channels[i].as_str().as_bytes()));
        i += 1;
    }
    assert(goal.subrange(0, i + 1) =~= goal);
    frame
}

/// The frame that tells a client of a subscription: the word, the channel,
/// and the number of channels that the client now has.
pub open spec fn notice_frame(word: Seq<char>, channel: Seq<char>, count: nat) -> FrameView {
    FrameView::Array(
        seq![
            FrameView::Bulk(cmd_name(word)),
            FrameView::Bulk(encode_utf8(channel)),
            FrameView::Integer(count as u64),
        ],
    )
}

/// The frame that carries a published message to a subscriber.
pub open spec fn message_frame(channel: Seq<char>, msg: Seq<u8>) -> FrameView {
    FrameView::Array(
        seq![
            FrameView::Bulk(cmd_name("message"@)),
            FrameView::Bulk(encode_utf8(channel)),
            FrameView::Bulk(msg),
        ],
    )
}

/// The answer to a subscription.
pub fn make_subscribe_frame(channel_name: String, num_subs: usize) -> (frame: Frame)
    ensures
        frame@ == notice_frame("subscribe"@, channel_name@, num_subs as nat),
{
    let mut response = Frame::array();
    response.push_bulk(bytes_copy_from_slice("subscribe".as_bytes()));
    response.push_bulk(bytes_copy_from_slice(channel_name.as_str().as_bytes()));
    response.push_int(num_subs as u64);
    assert(response@->Array_0 =~= notice_frame(
        "subscribe"@,
        channel_name@,
        num_subs as nat,
    )->Array_0);
    response
}

/// The answer to the end of a subscription.
pub fn make_unsubscribe_frame(channel_name: String, num_subs: usize) -> (frame: Frame)
    ensures
        frame@ == notice_frame("unsubscribe"@, channel_name@, num_subs as nat),
{
    let mut response = Frame::array();
    response.push_bulk(bytes_copy_from_slice("unsubscribe".as_bytes()));
    response.push_bulk(bytes_copy_from_slice(channel_name.as_str().as_bytes()));
    response.push_int(num_subs as u64);
    assert(response@->Array_0 =~= notice_frame(
        "unsubscribe"@,
        channel_name@,
        num_subs as nat,
    )->Array_0);
    response
}

/// The frame that carries a message published on a channel.
pub fn make_message_frame(channel_name: String, msg: Bytes) -> (frame: Frame)
    ensures
        frame@ == message_frame(channel_name@, bytes_view(msg)),
{
    let mut response = Frame::array();
    response.push_bulk(bytes_copy_from_slice("message".as_bytes()));
    response.push_bulk(bytes_copy_from_slice(channel_name.as_str().as_bytes()));
    response.push_bulk(msg);
    assert(response@->Array_0 =~= message_frame(channel_name@, bytes_view(msg))->Array_0);
    response
}

/// The bytes of the answers to subscriptions to `channels`, one after the
/// other, for a client that has the channels `names` before.
pub open spec fn subscribe_replies(names: Seq<Seq<char>>, channels: Seq<Seq<char>>) -> Seq<u8>
    decreases channels.len(),
{
    if channels.len() == 0 {
        Seq::empty()
    } else {
        spec_encode(notice_frame("subscribe"@, channels[0], with(names, channels[0]).len()))
            + subscribe_replies(
            with(names, channels[0]),
            channels.subrange(1, channels.len() as int),
        )
    }
}

/// The names that a client has after subscriptions to `channels`.
pub open spec fn subscribed(names: Seq<Seq<char>>, channels: Seq<Seq<char>>) -> Seq<Seq<char>>
    decreases channels.len(),
{
    if channels.len() == 0 {
        names
    } else {
        subscribed(with(names, channels[0]), channels.subrange(1, channels.len() as int))
    }
}

/// The bytes of the answers to the end of the subscriptions to `channels`.
pub open spec fn unsubscribe_replies(names: Seq<Seq<char>>, channels: Seq<Seq<char>>) -> Seq<u8>
    decreases channels.len(),
{
    if channels.len() == 0 {
        Seq::empty()
    } else {
        spec_encode(notice_frame("unsubscribe"@, channels[0], without(names, channels[0]).len()))
            + unsubscribe_replies(
            without(names, channels[0]),
            channels.subrange(1, channels.len() as int),
        )
    }
}

/// The names that a client has after the end of the subscriptions to
/// `channels`.
pub open spec fn unsubscribed(names: Seq<Seq<char>>, channels: Seq<Seq<char>>) -> Seq<Seq<char>>
    decreases channels.len(),
{
    if channels.len() == 0 {
        names
    } else {
        unsubscribed(without(names, channels[0]), channels.subrange(1, channels.len() as int))
    }
}

/// Leaving each of the channels leaves none: where no channel stands twice
/// and `targets` names each of them once, the end of the subscriptions to
/// `targets` leaves an empty list. The first answer counts one channel
/// fewer, and so does each in its turn.
pub proof fn lemma_unsubscribe_all(names: Seq<Seq<char>>, targets: Seq<Seq<char>>)
    requires
        names.no_duplicates(),
        targets.no_duplicates(),
        targets.len() == names.len(),
        forall|i: int| 0 <= i < targets.len() ==> names.contains(#[trigger] targets[i]),
    ensures
        unsubscribed(names, targets).len() == 0,
        targets.len() > 0 ==> without(names, targets[0]).len() == names.len() - 1,
    decreases targets.len(),
{
    if targets.len() > 0 {
        let first = targets[0];
        let rest = targets.subrange(1, targets.len() as int);
        assert(names.contains(first));
        lemma_without(names, first);
        let left = without(names, first);
        assert forall|i: int| 0 <= i < rest.len() implies left.contains(#[trigger] rest[i]) by {
            assert(rest[i] == targets[i + 1]);
            assert(names.contains(targets[i + 1]));
        }
        assert forall|a: int, b: int| 0 <= a < rest.len() && 0 <= b < rest.len() && a != b implies rest[a]
            != rest[b] by {
            assert(rest[a] == targets[a + 1]);
            assert(rest[b] == targets[b + 1]);
        }
        lemma_unsubscribe_all(left, rest);
    }
}

/// An `UNSUBSCRIBE` that names no channel ends every subscription: where no
/// channel stands twice, none is left.
pub proof fn lemma_unsubscribe_everything(names: Seq<Seq<char>>)
    requires
        names.no_duplicates(),
    ensures
        unsubscribed(names, unsubscribe_targets(names, Seq::empty())).len() == 0,
{
    assert forall|i: int| 0 <= i < names.len() implies names.contains(#[trigger] names[i]) by {}
    lemma_unsubscribe_all(names, names);
}

/// The channels that an `UNSUBSCRIBE` is about: those it names, or all that
/// the client has if it names none.
pub open spec fn unsubscribe_targets(names: Seq<Seq<char>>, channels: Seq<Seq<char>>) -> Seq<
    Seq<char>,
> {
    if channels.len() == 0 {
        names
    } else {
        channels
    }
}

/// The database with the channels named `channels`, which are made where
/// they are missing.
pub open spec fn with_channels(s: DbView, channels: Seq<Seq<char>>) -> DbView
    decreases channels.len(),
{
    if channels.len() == 0 {
        s
    } else {
        with_channels(
            DbView { channels: s.channels.insert(channels[0]), ..s },
            channels.subrange(1, channels.len() as int),
        )
    }
}

/// Subscribes a connection to a channel: the channel is made if it is
/// missing, its messages are put under its name among the connection's
/// subscriptions, and the answer is written.
pub fn subscribe_to_channel(
    channel_name: String,
    subscriptions: &mut Subscriptions,
    db: &mut Db,
    dst: &mut Connection,
)
    requires
        old(db).wf(),
    ensures
        final(db).wf(),
        final(db)@ == (DbView { channels: old(db)@.channels.insert(channel_name@), ..old(db)@ }),
        stream_names(*final(subscriptions)) == with(
            stream_names(*old(subscriptions)),
            channel_name@,
        ),
        final(dst).input() == old(dst).input(),
        final(dst).output() == old(dst).output() + spec_encode(
            notice_frame(
                "subscribe"@,
                channel_name@,
                stream_names(*final(subscriptions)).len(),
            ),
        ),
{
    let rx = db.subscribe(channel_name.clone());
    streams_insert(subscriptions, channel_name.clone(), rx);
    let response = make_subscribe_frame(channel_name, streams_len(subscriptions));
    dst.write_frame(&response);
}

/// Handles a frame received in subscriber mode. A `SUBSCRIBE` adds its
/// channels to `subscribe_to`; an `UNSUBSCRIBE` ends the subscriptions it
/// names, or all, with one answer each; any other command is answered as
/// unknown. A frame that is no command is an error.
pub fn handle_command(
    frame: Frame,
    subscribe_to: &mut Vec<String>,
    subscriptions: &mut Subscriptions,
    dst: &mut Connection,
) -> (r: Result<(), String>)
    ensures
        final(dst).input() == old(dst).input(),
        match spec_from_frame(frame@) {
            Err(msg) => {
                &&& r matches Err(e) && e@ == msg
                &&& stream_names(*final(subscriptions)) == stream_names(*old(subscriptions))
                &&& texts_of(final(subscribe_to)@) == texts_of(old(subscribe_to)@)
                &&& final(dst).output() == old(dst).output()
            },
            Ok(CommandView::Subscribe { channels }) => {
                &&& r is Ok
                &&& stream_names(*final(subscriptions)) == stream_names(*old(subscriptions))
                &&& texts_of(final(subscribe_to)@) == texts_of(old(subscribe_to)@) + channels
                &&& final(dst).output() == old(dst).output()
            },
            Ok(CommandView::Unsubscribe { channels }) => {
                let names = stream_names(*old(subscriptions));
                let targets = unsubscribe_targets(names, channels);
                &&& r is Ok
                &&& stream_names(*final(subscriptions)) == unsubscribed(names, targets)
                &&& texts_of(final(subscribe_to)@) == texts_of(old(subscribe_to)@)
                &&& final(dst).output() == old(dst).output() + unsubscribe_replies(names, targets)
            },
            Ok(cmd) => {
                &&& r is Ok
                &&& stream_names(*final(subscriptions)) == stream_names(*old(subscriptions))
                &&& texts_of(final(subscribe_to)@) == texts_of(old(subscribe_to)@)
                &&& final(dst).output() == old(dst).output() + spec_encode(
                    FrameView::Error(unknown_text(spec_name(cmd))),
                )
            },
        },
{
    let ghost names0 = stream_names(*subscriptions);
    let ghost out0 = dst.output();
    let ghost pending0 = texts_of(subscribe_to@);
    match Command::from_frame(frame)? {
        Command::Subscribe(subscribe) => {
            let mut channels = subscribe.into_channels();
            let ghost added = texts_of(channels@);
            subscribe_to.append(&mut channels);
            assert(texts_of(subscribe_to@) =~= pending0 + added);
            Ok(())
        },
        Command::Unsubscribe(unsubscribe) => {
            let mut channels = unsubscribe.into_channels();
            if channels.len() == 0 {
                channels = streams_keys(subscriptions);
            }
            let ghost targets = texts_of(channels@);
            assert(targets.subrange(0, targets.len() as int) =~= targets);
            let mut i: usize = 0;
            while i < channels.len()
                invariant
                    i <= channels.len(),
                    targets == texts_of(channels@),
                    dst.input() == old(dst).input(),
                    unsubscribed(names0, targets) == unsubscribed(
                        stream_names(*subscriptions),
                        targets.subrange(i as int, targets.len() as int),
                    ),
                    out0 + unsubscribe_replies(names0, targets) == dst.output()
                        + unsubscribe_replies(
                        stream_names(*subscriptions),
                        targets.subrange(i as int, targets.len() as int),
                    ),
                decreases channels.len() - i,
            {
                let ghost rest = targets.subrange(i as int, targets.len() as int);
                let ghost before = stream_names(*subscriptions);
                let ghost sofar = dst.output();
                assert(rest[0] == channels@[i as int]@);
                assert(rest.subrange(1, rest.len() as int) =~= targets.subrange(
                    i + 1,
                    targets.len() as int,
                ));
                streams_remove(subscriptions, &channels[i]);
                let response = make_unsubscribe_frame(
                    channels[i].clone(),
                    streams_len(subscriptions),
                );
                dst.write_frame(&response);
                assert(dst.output() + unsubscribe_replies(
                    stream_names(*subscriptions),
                    targets.subrange(i + 1, targets.len() as int),
                ) =~= sofar + unsubscribe_replies(before, rest));
                i += 1;
            }
            assert(dst.output() + Seq::<u8>::empty() =~= dst.output());
            Ok(())
        },
        command => {
            let cmd = Unknown::new(command.get_name());
            cmd.apply(dst);
            Ok(())
        },
    }
}

impl View for Subscribe {
    type V = CommandView;

    open spec fn view(&self) -> CommandView {
        CommandView::Subscribe { channels: self.spec_channels() }
    }
}

impl Subscribe {
    /// The channels' names, in order.
    pub closed spec fn spec_channels(&self) -> Seq<Seq<char>> {
        texts_of(self.channels@)
    }

    /// A `SUBSCRIBE` to `channels`.
    pub fn new(channels: &[String]) -> (subscribe: Subscribe)
        ensures
            subscribe@ == (CommandView::Subscribe { channels: texts_of(channels@) }),
    {
        Subscribe { channels: copy_strings(channels) }
    }

    /// The channels' names.
    pub fn into_channels(self) -> (channels: Vec<String>)
        ensures
            texts_of(channels@) == self.spec_channels(),
    {
        self.channels
    }

    /// Subscribes the connection to the channels of `pending`, in order,
    /// which leaves `pending` empty.
    pub fn apply(
        pending: &mut Vec<String>,
        subscriptions: &mut Subscriptions,
        db: &mut Db,
        dst: &mut Connection,
    )
        requires
            old(db).wf(),
        ensures
            final(db).wf(),
            final(pending)@.len() == 0,
            final(db)@ == with_channels(old(db)@, texts_of(old(pending)@)),
            stream_names(*final(subscriptions)) == subscribed(
                stream_names(*old(subscriptions)),
                texts_of(old(pending)@),
            ),
            final(dst).input() == old(dst).input(),
            final(dst).output() == old(dst).output() + subscribe_replies(
                stream_names(*old(subscriptions)),
                texts_of(old(pending)@),
            ),
    {
        let ghost names0 = stream_names(*subscriptions);
        let ghost out0 = dst.output();
        let ghost db0 = db@;
        let mut channels: Vec<String> = Vec::new();
        std::mem::swap(&mut channels, pending);
        let ghost targets = texts_of(channels@);
        assert(targets.subrange(0, targets.len() as int) =~= targets);
        let mut i: usize = 0;
        while i < channels.len()
            invariant
                i <= channels.len(),
                pending@.len() == 0,
                targets == texts_of(channels@),
                db.wf(),
                dst.input() == old(dst).input(),
                with_channels(db0, targets) == with_channels(
                    db@,
                    targets.subrange(i as int, targets.len() as int),
                ),
                subscribed(names0, targets) == subscribed(
                    stream_names(*subscriptions),
                    targets.subrange(i as int, targets.len() as int),
                ),
                out0 + subscribe_replies(names0, targets) == dst.output() + subscribe_replies(
                    stream_names(*subscriptions),
                    targets.subrange(i as int, targets.len() as int),
                ),
            decreases channels.len() - i,
        {
            let ghost rest = targets.subrange(i as int, targets.len() as int);
            let ghost before = stream_names(*subscriptions);
            let ghost sofar = dst.output();
            assert(rest[0] == channels@[i as int]@);
            assert(rest.subrange(1, rest.len() as int) =~= targets.subrange(
                i + 1,
                targets.len() as int,
            ));
            subscribe_to_channel(channels[i].clone(), subscriptions, db, dst);
            assert(dst.output() + subscribe_replies(
                stream_names(*subscriptions),
                targets.subrange(i + 1, targets.len() as int),
            ) =~= sofar + subscribe_replies(before, rest));
            i += 1;
        }
        assert(dst.output() + Seq::<u8>::empty() =~= dst.output());
    }

    /// Reads a `SUBSCRIBE` from the entries after the command's name.
    pub fn parse_frames(parse: &mut Parse) -> (r: Result<Subscribe, ParseError>)
        ensures
            match r {
                Ok(subscribe) => spec_subscribe(old(parse).remaining()) == Ok::<
                    (CommandView, int),
                    ParseErrorView,
                >((subscribe@, old(parse).remaining().len() as int))
                    && final(parse).remaining().len() == 0,
                Err(e) => spec_subscribe(old(parse).remaining()) == Err::<
                    (CommandView, int),
                    ParseErrorView,
                >(e@),
            },
    {
        let ghost args = parse.remaining();
        let first = parse.next_string()?;
        let ghost rest = parse.remaining();
        let more = parse_strings(parse)?;
        let mut channels: Vec<String> = Vec::new();
        channels.push(first);
        let mut more = more;
        let ghost tail = texts_of(more@);
        channels.append(&mut more);
        assert(texts_of(channels@) =~= seq![first@] + tail);
        Ok(Subscribe { channels })
    }

    /// The command as a frame, for the wire.
    pub fn into_frame(self) -> (frame: Frame)
        ensures
            frame@ == channels_frame("subscribe"@, self.spec_channels()),
    {
        frame_of("subscribe", self.channels)
    }
}

impl View for Unsubscribe {
    type V = CommandView;

    open spec fn view(&self) -> CommandView {
        CommandView::Unsubscribe { channels: self.spec_channels() }
    }
}

impl Unsubscribe {
    /// The channels' names, in order.
    pub closed spec fn spec_channels(&self) -> Seq<Seq<char>> {
        texts_of(self.channels@)
    }

    /// An `UNSUBSCRIBE` from `channels`.
    pub fn new(channels: &[String]) -> (unsubscribe: Unsubscribe)
        ensures
            unsubscribe@ == (CommandView::Unsubscribe { channels: texts_of(channels@) }),
    {
        Unsubscribe { channels: copy_strings(channels) }
    }

    /// The channels' names.
    pub fn into_channels(self) -> (channels: Vec<String>)
        ensures
            texts_of(channels@) == self.spec_channels(),
    {
        self.channels
    }

    /// Reads an `UNSUBSCRIBE` from the entries after the command's name.
    pub fn parse_frames(parse: &mut Parse) -> (r: Result<Unsubscribe, ParseError>)
        ensures
            match r {
                Ok(unsubscribe) => spec_unsubscribe(old(parse).remaining()) == Ok::<
                    (CommandView, int),
                    ParseErrorView,
                >((unsubscribe@, old(parse).remaining().len() as int))
                    && final(parse).remaining().len() == 0,
                Err(e) => spec_unsubscribe(old(parse).remaining()) == Err::<
                    (CommandView, int),
                    ParseErrorView,
                >(e@),
            },
    {
        let channels = parse_strings(parse)?;
        Ok(Unsubscribe { channels })
    }

    /// The command as a frame, for the wire.
    pub fn into_frame(self) -> (frame: Frame)
        ensures
            frame@ == channels_frame("unsubscribe"@, self.spec_channels()),
    {
        frame_of("unsubscribe", self.channels)
    }
}

} // verus!
