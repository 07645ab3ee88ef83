//! The commands' round trip: a command written as a frame is read back as
//! the same command.

use crate::cmd::{cmd_name, spec_from_frame, spec_into_frame, CommandView};
use crate::cmd::set::wire_millis;
use crate::cmd::subscribe::spec_strings;
use crate::frame::FrameView;
use crate::parse::{as_string, ParseErrorView};
use crate::text::{ascii_lower, ascii_upper, lowercase, uppercase};
use crate::time::NANOS_PER_MILLI;
use vstd::prelude::*;
use vstd::utf8::{encode_utf8, encode_utf8_decode_utf8, encode_utf8_valid_utf8};

verus! {

/// Whether a command can be written as a frame and read back: it is one of
/// the five known commands, a `SUBSCRIBE` names a channel, and a time to
/// live is a whole number of milliseconds that fits 64 bits.
pub open spec fn encodable(cmd: CommandView) -> bool {
    match cmd {
        CommandView::Get { .. } => true,
        CommandView::Publish { .. } => true,
        CommandView::SetCmd { expire, .. } => match expire {
            None => true,
            Some(d) => d.nanos % NANOS_PER_MILLI == 0 && d.nanos / NANOS_PER_MILLI <= u64::MAX,
        },
        CommandView::Subscribe { channels } => channels.len() >= 1,
        CommandView::Unsubscribe { .. } => true,
        CommandView::Unknown { .. } => false,
    }
}

/// Text written as a bulk entry is read back as that text.
proof fn lemma_text_entry(text: Seq<char>)
    ensures
        as_string(FrameView::Bulk(encode_utf8(text))) == Ok::<Seq<char>, ParseErrorView>(text),
{
    encode_utf8_valid_utf8(text);
    encode_utf8_decode_utf8(text);
}

/// The five command words are in lower case already, and differ from one
/// another.
proof fn lemma_words()
    ensures
        lowercase("get"@) == "get"@,
        lowercase("publish"@) == "publish"@,
        lowercase("set"@) == "set"@,
        lowercase("subscribe"@) == "subscribe"@,
        lowercase("unsubscribe"@) == "unsubscribe"@,
        "publish"@ != "get"@,
        "set"@ != "get"@,
        "set"@ != "publish"@,
        "subscribe"@ != "get"@,
        "subscribe"@ != "publish"@,
        "subscribe"@ != "set"@,
        "unsubscribe"@ != "get"@,
        "unsubscribe"@ != "publish"@,
        "unsubscribe"@ != "set"@,
        "unsubscribe"@ != "subscribe"@,
{
    reveal_strlit("get");
    reveal_strlit("publish");
    reveal_strlit("set");
    reveal_strlit("subscribe");
    reveal_strlit("unsubscribe");
    assert("get"@.map_values(|c: char| ascii_lower(c)) =~= "get"@);
    assert("publish"@.map_values(|c: char| ascii_lower(c)) =~= "publish"@);
    assert("set"@.map_values(|c: char| ascii_lower(c)) =~= "set"@);
    assert("subscribe"@.map_values(|c: char| ascii_lower(c)) =~= "subscribe"@);
    assert("unsubscribe"@.map_values(|c: char| ascii_lower(c)) =~= "unsubscribe"@);
    assert("set"@[0] != "get"@[0]);
}

/// `px` in upper case is `PX`, which is not `EX`.
proof fn lemma_px()
    ensures
        uppercase("px"@) == "PX"@,
        "PX"@ != "EX"@,
{
    reveal_strlit("px");
    reveal_strlit("PX");
    reveal_strlit("EX");
    assert("px"@.map_values(|c: char| ascii_upper(c)) =~= "PX"@);
    assert("PX"@[0] != "EX"@[0]);
}

/// Channel names written as bulk entries are read back as those names.
proof fn lemma_channels(channels: Seq<Seq<char>>)
    ensures
        spec_strings(channels.map_values(|c: Seq<char>| FrameView::Bulk(encode_utf8(c)))) == Ok::<
            Seq<Seq<char>>,
            ParseErrorView,
        >(channels),
    decreases channels.len(),
{
    let entries = channels.map_values(|c: Seq<char>| FrameView::Bulk(encode_utf8(c)));
    if channels.len() == 0 {
        assert(channels =~= Seq::<Seq<char>>::empty());
    } else {
        let rest = channels.subrange(1, channels.len() as int);
        lemma_text_entry(channels[0]);
        lemma_channels(rest);
        assert(entries.subrange(1, entries.len() as int) =~= rest.map_values(
            |c: Seq<char>| FrameView::Bulk(encode_utf8(c)),
        ));
        assert(seq![channels[0]] + rest =~= channels);
    }
}

/// Reading gives back what writing wrote: the frame of a command that can
/// be written is read as that command.
pub proof fn lemma_from_frame_into_frame(cmd: CommandView)
    requires
        encodable(cmd),
    ensures
        spec_into_frame(cmd) matches Some(frame) && spec_from_frame(frame) == Ok::<
            CommandView,
            Seq<char>,
        >(cmd),
{
    lemma_words();
    let frame = spec_into_frame(cmd)->Some_0;
    let items = frame->Array_0;
    let args = items.subrange(1, items.len() as int);
    match cmd {
        CommandView::Get { key } => {
            lemma_text_entry("get"@);
            lemma_text_entry(key);
            assert(args =~= seq![FrameView::Bulk(encode_utf8(key))]);
        },
        CommandView::Publish { channel, message } => {
            lemma_text_entry("publish"@);
            lemma_text_entry(channel);
            assert(args =~= seq![FrameView::Bulk(encode_utf8(channel)), FrameView::Bulk(message)]);
        },
        CommandView::SetCmd { key, value, expire } => {
            lemma_text_entry("set"@);
            lemma_text_entry(key);
            match expire {
                None => {
                    assert(args =~= seq![
                        FrameView::Bulk(encode_utf8(key)),
                        FrameView::Bulk(value),
                    ]);
                },
                Some(d) => {
                    lemma_text_entry("px"@);
                    lemma_px();
                    assert(args =~= seq![
                        FrameView::Bulk(encode_utf8(key)),
                        FrameView::Bulk(value),
                        FrameView::Bulk(cmd_name("px"@)),
                        FrameView::Integer(wire_millis(d)),
                    ]);
                    let ms = wire_millis(d);
                    assert(ms == d.nanos / NANOS_PER_MILLI);
                    assert((ms * NANOS_PER_MILLI) as u128 == d.nanos);
                },
            }
        },
        CommandView::Subscribe { channels } => {
            lemma_text_entry("subscribe"@);
            lemma_channels(channels);
            assert(args =~= channels.map_values(|c: Seq<char>| FrameView::Bulk(encode_utf8(c))));
        },
        CommandView::Unsubscribe { channels } => {
            lemma_text_entry("unsubscribe"@);
            lemma_channels(channels);
            assert(args =~= channels.map_values(|c: Seq<char>| FrameView::Bulk(encode_utf8(c))));
        },
        CommandView::Unknown { name } => {},
    }
}

} // verus!
