//! `GET key`.

use crate::cmd::{cmd_name, CommandView};
use crate::connection::Connection;
use crate::db::{Db, DbView};
use crate::frame::{spec_encode, Frame, FrameView};
use crate::parse::{as_string, Parse, ParseError, ParseErrorView};
use crate::payload::bytes_copy_from_slice;
use vstd::prelude::*;
use vstd::utf8::encode_utf8;

verus! {

/// Asks for the value of a key.
#[derive(Debug, PartialEq, Eq)]
pub struct Get {
    key: String,
}

/// What `GET` reads from the entries after its name, and how many entries
/// it takes.
pub open spec fn spec_get(args: Seq<FrameView>) -> Result<(CommandView, int), ParseErrorView> {
    if args.len() == 0 {
        Err(ParseErrorView::EndOfStream)
    } else {
        match as_string(args[0]) {
            Ok(key) => Ok((CommandView::Get { key }, 1)),
            Err(e) => Err(e),
        }
    }
}

/// The frame that stands for `GET key`.
pub open spec fn get_frame(key: Seq<char>) -> FrameView {
    FrameView::Array(
        seq![FrameView::Bulk(cmd_name("get"@)), FrameView::Bulk(encode_utf8(key))],
    )
}

/// The answer to `GET key`: the value as a bulk frame, or null where the
/// key has none.
pub open spec fn get_reply(db: DbView, key: Seq<char>) -> FrameView {
    if db.entries.contains_key(key) {
        FrameView::Bulk(db.entries[key].data)
    } else {
        FrameView::Null
    }
}

impl View for Get {
    type V = CommandView;

    open spec fn view(&self) -> CommandView {
        CommandView::Get { key: self.spec_key() }
    }
}

impl Get {
    /// The key asked for.
    pub closed spec fn spec_key(&self) -> Seq<char> {
        self.key@
    }

    /// A `GET` for `key`.
    pub fn new(key: &str) -> (get: Get)
        ensures
            get@ == (CommandView::Get { key: key@ }),
    {
        Get { key: key.to_owned() }
    }

    /// The key asked for.
    pub fn key(&self) -> (key: &str)
        ensures
            key@ == self.spec_key(),
    {
        self.key.as_str()
    }

    /// Reads a `GET` from the entries after the command's name.
    pub fn parse_frames(parse: &mut Parse) -> (r: Result<Get, ParseError>)
        ensures
            match r {
                Ok(get) => spec_get(old(parse).remaining()) == Ok::<
                    (CommandView, int),
                    ParseErrorView,
                >((get@, 1)) && final(parse).remaining() == old(parse).remaining().subrange(
                    1,
                    old(parse).remaining().len() as int,
                ),
                Err(e) => spec_get(old(parse).remaining()) == Err::<
                    (CommandView, int),
                    ParseErrorView,
                >(e@),
            },
    {
        let key = parse.next_string()?;
        Ok(Get { key })
    }

    /// Answers the command from the database: the value is written, or
    /// null.
    pub fn apply(self, db: &Db, dst: &mut Connection)
        requires
            db.wf(),
        ensures
            final(dst).input() == old(dst).input(),
            final(dst).output() == old(dst).output() + spec_encode(
                get_reply(db@, self.spec_key()),
            ),
    {
        let response = match db.get(self.key.as_str()) {
            Some(value) => Frame::Bulk(value),
            None => Frame::Null,
        };
        dst.write_frame(&response);
    }

    /// The command as a frame, for the wire.
    pub fn into_frame(self) -> (frame: Frame)
        ensures
            frame@ == get_frame(self.spec_key()),
    {
        let mut frame = Frame::array();
        frame.push_bulk(bytes_copy_from_slice("get".as_bytes()));
        frame.push_bulk(bytes_copy_from_slice(self.key.as_str().as_bytes()));
        assert(frame@->Array_0 =~= get_frame(self.spec_key())->Array_0);
        frame
    }
}

} // verus!
