//! `SET key value [EX seconds | PX milliseconds]`.

use crate::cmd::{cmd_name, CommandView};
use crate::connection::Connection;
use crate::db::{after_set, wakes_worker, Db};
use crate::frame::{spec_encode, Frame, FrameView};
use crate::parse::{as_bytes, as_int, as_string, Parse, ParseError, ParseErrorView};
use crate::payload::{bytes_copy_from_slice, bytes_view};
use crate::text::{to_uppercase, uppercase};
use crate::time::{Duration, Instant, NANOS_PER_MILLI, NANOS_PER_SEC};
use bytes::Bytes;
use vstd::prelude::*;
use vstd::utf8::encode_utf8;

verus! {

/// Binds a value to a key, for a time or for good.
#[derive(Debug, PartialEq, Eq)]
pub struct SetCmd {
    key: String,
    value: Bytes,
    expire: Option<Duration>,
}

/// The error for an option of `SET` that is neither `EX` nor `PX`.
pub open spec fn unsupported_option() -> ParseErrorView {
    ParseErrorView::Other("currently 'SET' only supports the expiration option"@)
}

/// The time to live that the entries from `args[2]` on ask for, and the
/// number of entries of `args` taken in all.
pub open spec fn spec_expire(args: Seq<FrameView>) -> Result<
    (Option<Duration>, int),
    ParseErrorView,
>
    recommends
        args.len() >= 2,
{
    if args.len() == 2 {
        Ok((None, 2))
    } else {
        match as_string(args[2]) {
            Err(e) => Err(e),
            Ok(unit) => if uppercase(unit) == "EX"@ || uppercase(unit) == "PX"@ {
                if args.len() == 3 {
                    Err(ParseErrorView::EndOfStream)
                } else {
                    match as_int(args[3]) {
                        Err(e) => Err(e),
                        Ok(n) => if uppercase(unit) == "EX"@ {
                            Ok((Some(Duration { nanos: (n * NANOS_PER_SEC) as u128 }), 4))
                        } else {
                            Ok((Some(Duration { nanos: (n * NANOS_PER_MILLI) as u128 }), 4))
                        },
                    }
                }
            } else {
                Err(unsupported_option())
            },
        }
    }
}

/// What `SET` reads from the entries after its name, and how many entries
/// it takes.
pub open spec fn spec_set(args: Seq<FrameView>) -> Result<(CommandView, int), ParseErrorView> {
    if args.len() == 0 {
        Err(ParseErrorView::EndOfStream)
    } else {
        match as_string(args[0]) {
            Err(e) => Err(e),
            Ok(key) => if args.len() == 1 {
                Err(ParseErrorView::EndOfStream)
            } else {
                match as_bytes(args[1]) {
                    Err(e) => Err(e),
                    Ok(value) => match spec_expire(args) {
                        Err(e) => Err(e),
                        Ok((expire, used)) => Ok(
                            (CommandView::SetCmd { key, value, expire }, used),
                        ),
                    },
                }
            },
        }
    }
}

/// The milliseconds of a time to live as they go on the wire: whole
/// milliseconds, cut to 64 bits.
pub open spec fn wire_millis(expire: Duration) -> u64 {
    ((expire.nanos / NANOS_PER_MILLI) % 0x1_0000_0000_0000_0000) as u64
}

/// The frame that stands for a `SET`. A time to live always goes as `PX`.
pub open spec fn set_frame(key: Seq<char>, value: Seq<u8>, expire: Option<Duration>) -> FrameView {
    let head = seq![
        FrameView::Bulk(cmd_name("set"@)),
        FrameView::Bulk(encode_utf8(key)),
        FrameView::Bulk(value),
    ];
    match expire {
        None => FrameView::Array(head),
        Some(d) => FrameView::Array(
            head + seq![FrameView::Bulk(cmd_name("px"@)), FrameView::Integer(wire_millis(d))],
        ),
    }
}

impl View for SetCmd {
    type V = CommandView;

    open spec fn view(&self) -> CommandView {
        CommandView::SetCmd {
            key: self.spec_key(),
            value: self.spec_value(),
            expire: self.spec_expire(),
        }
    }
}

impl SetCmd {
    /// The key.
    pub closed spec fn spec_key(&self) -> Seq<char> {
        self.key@
    }

    /// The value's bytes.
    pub closed spec fn spec_value(&self) -> Seq<u8> {
        bytes_view(self.value)
    }

    /// The time to live, if there is one.
    pub closed spec fn spec_expire(&self) -> Option<Duration> {
        self.expire
    }

    /// A `SET` of `key` to `value`, which expires after `expire`.
    pub fn new(key: &str, value: Bytes, expire: Option<Duration>) -> (set: SetCmd)
        ensures
            set@ == (CommandView::SetCmd { key: key@, value: bytes_view(value), expire }),
    {
        SetCmd { key: key.to_owned(), value, expire }
    }

    /// The key.
    pub fn key(&self) -> (key: &str)
        ensures
            key@ == self.spec_key(),
    {
        self.key.as_str()
    }

    /// The value.
    pub fn value(&self) -> (value: &Bytes)
        ensures
            bytes_view(*value) == self.spec_value(),
    {
        &self.value
    }

    /// The time to live, if there is one.
    pub fn expire(&self) -> (expire: Option<Duration>)
        ensures
            expire == self.spec_expire(),
    {
        self.expire
    }

    /// Reads a `SET` from the entries after the command's name.
    pub fn parse_frames(parse: &mut Parse) -> (r: Result<SetCmd, ParseError>)
        ensures
            match r {
                Ok(set) => spec_set(old(parse).remaining()) matches Ok((cmd, used)) && cmd == set@
                    && 0 <= used <= old(parse).remaining().len() && final(parse).remaining()
                    == old(parse).remaining().subrange(
                    used,
                    old(parse).remaining().len() as int,
                ),
                Err(e) => spec_set(old(parse).remaining()) == Err::<
                    (CommandView, int),
                    ParseErrorView,
                >(e@),
            },
    {
        let ghost args = parse.remaining();
        let key = parse.next_string()?;
        let value = parse.next_bytes()?;
        assert(parse.remaining() =~= args.subrange(2, args.len() as int));
        let mut expire: Option<Duration> = None;
        match parse.next_string() {
            Ok(unit) => {
                let upper = to_uppercase(unit.as_str());
                if upper == "EX".to_owned() {
                    let secs = parse.next_int()?;
                    expire = Some(Duration::from_secs(secs));
                    assert(parse.remaining() =~= args.subrange(4, args.len() as int));
                } else if upper == "PX".to_owned() {
                    let ms = parse.next_int()?;
                    expire = Some(Duration::from_millis(ms));
                    assert(parse.remaining() =~= args.subrange(4, args.len() as int));
                } else {
                    return Err(
                        ParseError::Other(
                            "currently 'SET' only supports the expiration option".to_owned(),
                        ),
                    );
                }
            },
            Err(ParseError::EndOfStream) => {},
            Err(err) => {
                return Err(err);
            },
        }
        Ok(SetCmd { key, value, expire })
    }

    /// Stores the value at the instant `now` and answers `OK`. Tells
    /// whether the expiration worker is to be woken.
    pub fn apply(self, db: &mut Db, dst: &mut Connection, now: Instant) -> (notify: bool)
        requires
            old(db).wf(),
            old(db)@.next_id < u64::MAX,
            self.spec_expire() matches Some(d) ==> now + d.nanos <= u128::MAX,
        ensures
            final(db).wf(),
            final(db)@ == after_set(
                old(db)@,
                self.spec_key(),
                self.spec_value(),
                self.spec_expire(),
                now,
            ),
            notify == wakes_worker(old(db)@, self.spec_expire(), now),
            final(dst).input() == old(dst).input(),
            final(dst).output() == old(dst).output() + spec_encode(FrameView::Simple("OK"@)),
    {
        let notify = db.set(self.key, self.value, self.expire, now);
        let response = Frame::Simple("OK".to_owned());
        dst.write_frame(&response);
        notify
    }

    /// The command as a frame, for the wire.
    pub fn into_frame(self) -> (frame: Frame)
        ensures
            frame@ == set_frame(self.spec_key(), self.spec_value(), self.spec_expire()),
    {
        let mut frame = Frame::array();
        frame.push_bulk(bytes_copy_from_slice("set".as_bytes()));
        frame.push_bulk(bytes_copy_from_slice(self.key.as_str().as_bytes()));
        frame.push_bulk(self.value);
        if let Some(ms) = self.expire {
            frame.push_bulk(bytes_copy_from_slice("px".as_bytes()));
            frame.push_int((ms.as_millis() % 0x1_0000_0000_0000_0000) as u64);
        }
        assert(frame@->Array_0 =~= set_frame(
            self.spec_key(),
            self.spec_value(),
            self.spec_expire(),
        )->Array_0);
        frame
    }
}

} // verus!
