//! The commands that the server knows, and how each is read from a frame
//! and written as one.

pub mod get;
pub mod publish;
pub mod roundtrip;
pub mod set;
pub mod subscribe;
pub mod unknown;

pub use get::Get;
pub use publish::Publish;
pub use set::SetCmd;
pub use subscribe::{Subscribe, Unsubscribe};
pub use unknown::Unknown;

use crate::cmd::get::{get_frame, spec_get};
use crate::cmd::publish::{publish_frame, spec_publish};
use crate::cmd::set::{set_frame, spec_set};
use crate::cmd::subscribe::{channels_frame, spec_subscribe, spec_unsubscribe};
use crate::frame::{Frame, FrameView};
use crate::parse::{
    as_string, expected_array, expected_end, parse_error_text, Parse, ParseError, ParseErrorView,
};
use crate::text::{lowercase, to_lowercase};
use crate::time::Duration;
use vstd::prelude::*;
use vstd::utf8::encode_utf8;

verus! {

/// What a command says.
pub enum CommandView {
    Get { key: Seq<char> },
    Publish { channel: Seq<char>, message: Seq<u8> },
    SetCmd { key: Seq<char>, value: Seq<u8>, expire: Option<Duration> },
    Subscribe { channels: Seq<Seq<char>> },
    Unsubscribe { channels: Seq<Seq<char>> },
    Unknown { name: Seq<char> },
}

/// The bytes of a word of the protocol.
pub open spec fn cmd_name(name: Seq<char>) -> Seq<u8> {
    encode_utf8(name)
}

/// A command of the protocol.
#[derive(Debug, PartialEq, Eq)]
pub enum Command {
    Get(Get),
    Publish(Publish),
    SetCmd(SetCmd),
    Subscribe(Subscribe),
    Unsubscribe(Unsubscribe),
    Unknown(Unknown),
}

impl View for Command {
    type V = CommandView;

    open spec fn view(&self) -> CommandView {
        match self {
            Command::Get(cmd) => cmd@,
            Command::Publish(cmd) => cmd@,
            Command::SetCmd(cmd) => cmd@,
            Command::Subscribe(cmd) => cmd@,
            Command::Unsubscribe(cmd) => cmd@,
            Command::Unknown(cmd) => cmd@,
        }
    }
}

/// What the command named `name` reads from the entries `args` that follow
/// its name, and how many entries it takes. A name that is none of the five
/// known ones gives an unknown command, which takes no entry.
pub open spec fn spec_args(name: Seq<char>, args: Seq<FrameView>) -> Result<
    (CommandView, int),
    ParseErrorView,
> {
    if name == "get"@ {
        spec_get(args)
    } else if name == "publish"@ {
        spec_publish(args)
    } else if name == "set"@ {
        spec_set(args)
    } else if name == "subscribe"@ {
        spec_subscribe(args)
    } else if name == "unsubscribe"@ {
        spec_unsubscribe(args)
    } else {
        Ok((CommandView::Unknown { name }, args.len() as int))
    }
}

/// The command that the entries of an array frame spell. The first entry is
/// the name, in any case of letters. A known command must take every entry;
/// of an unknown one the entries are not looked at.
pub open spec fn spec_command(items: Seq<FrameView>) -> Result<CommandView, ParseErrorView> {
    if items.len() == 0 {
        Err(ParseErrorView::EndOfStream)
    } else {
        match as_string(items[0]) {
            Err(e) => Err(e),
            Ok(name) => {
                let args = items.subrange(1, items.len() as int);
                match spec_args(lowercase(name), args) {
                    Err(e) => Err(e),
                    Ok((cmd, used)) => if used < args.len() {
                        Err(expected_end())
                    } else {
                        Ok(cmd)
                    },
                }
            },
        }
    }
}

/// The command that a frame spells, or the text of the error.
pub open spec fn spec_from_frame(frame: FrameView) -> Result<CommandView, Seq<char>> {
    match frame {
        FrameView::Array(items) => match spec_command(items) {
            Ok(cmd) => Ok(cmd),
            Err(e) => Err(parse_error_text(e)),
        },
        _ => Err(parse_error_text(expected_array(frame))),
    }
}

/// The frame that a command is written as. An unknown command has none.
pub open spec fn spec_into_frame(cmd: CommandView) -> Option<FrameView> {
    match cmd {
        CommandView::Get { key } => Some(get_frame(key)),
        CommandView::Publish { channel, message } => Some(publish_frame(channel, message)),
        CommandView::SetCmd { key, value, expire } => Some(set_frame(key, value, expire)),
        CommandView::Subscribe { channels } => Some(channels_frame("subscribe"@, channels)),
        CommandView::Unsubscribe { channels } => Some(channels_frame("unsubscribe"@, channels)),
        CommandView::Unknown { name } => None,
    }
}

/// Whether `text` is the word `word`.
fn is_word(text: &String, word: &str) -> (b: bool)
    ensures
        b == (text@ == word@),
{
    *text == word.to_owned()
}

impl Command {
    /// Reads the entries that follow the command's name.
    fn parse_args(name: String, parse: &mut Parse) -> (r: Result<Command, ParseError>)
        ensures
            match r {
                Ok(cmd) => spec_args(name@, old(parse).remaining()) matches Ok((c, used)) && c
                    == cmd@ && 0 <= used <= old(parse).remaining().len() && (cmd is Unknown
                    || final(parse).remaining() == old(parse).remaining().subrange(
                    used,
                    old(parse).remaining().len() as int,
                )),
                Err(e) => spec_args(name@, old(parse).remaining()) == Err::<
                    (CommandView, int),
                    ParseErrorView,
                >(e@),
            },
    {
        if is_word(&name, "get") {
            Ok(Command::Get(Get::parse_frames(parse)?))
        } else if is_word(&name, "publish") {
            Ok(Command::Publish(Publish::parse_frames(parse)?))
        } else if is_word(&name, "set") {
            Ok(Command::SetCmd(SetCmd::parse_frames(parse)?))
        } else if is_word(&name, "subscribe") {
            let ghost args = parse.remaining();
            let cmd = Subscribe::parse_frames(parse)?;
            assert(parse.remaining() =~= args.subrange(args.len() as int, args.len() as int));
            Ok(Command::Subscribe(cmd))
        } else if is_word(&name, "unsubscribe") {
            let ghost args = parse.remaining();
            let cmd = Unsubscribe::parse_frames(parse)?;
            assert(parse.remaining() =~= args.subrange(args.len() as int, args.len() as int));
            Ok(Command::Unsubscribe(cmd))
        } else {
            Ok(Command::Unknown(Unknown::new(name.as_str())))
        }
    }

    /// Reads a command from a frame.
    pub fn from_frame(frame: Frame) -> (r: Result<Command, String>)
        ensures
            match r {
                Ok(cmd) => spec_from_frame(frame@) == Ok::<CommandView, Seq<char>>(cmd@),
                Err(e) => spec_from_frame(frame@) == Err::<CommandView, Seq<char>>(e@),
            },
    {
        let mut parse = match Parse::new(frame) {
            Ok(parse) => parse,
            Err(e) => {
                return Err(e.into_text());
            },
        };
        let name = match parse.next_string() {
            Ok(name) => name,
            Err(e) => {
                return Err(e.into_text());
            },
        };
        let command_name = to_lowercase(name.as_str());
        let command = match Command::parse_args(command_name, &mut parse) {
            Ok(command) => command,
            Err(e) => {
                return Err(e.into_text());
            },
        };
        if let Command::Unknown(_) = command {
            return Ok(command);
        }
        match parse.finish() {
            Ok(()) => Ok(command),
            Err(e) => Err(e.into_text()),
        }
    }

    /// The command's name, as the reply to a command out of place gives it.
    pub fn get_name(&self) -> (name: &str)
        ensures
            name@ == spec_name(self@),
    {
        match self {
            Command::Get(_) => "get",
            Command::Publish(_) => "pub",
            Command::SetCmd(_) => "set",
            Command::Subscribe(_) => "subscribe",
            Command::Unsubscribe(_) => "unsubscribe",
            Command::Unknown(cmd) => cmd.get_name(),
        }
    }
}

/// The name by which a reply speaks of a command.
pub open spec fn spec_name(cmd: CommandView) -> Seq<char> {
    match cmd {
        CommandView::Get { .. } => "get"@,
        CommandView::Publish { .. } => "pub"@,
        CommandView::SetCmd { .. } => "set"@,
        CommandView::Subscribe { .. } => "subscribe"@,
        CommandView::Unsubscribe { .. } => "unsubscribe"@,
        CommandView::Unknown { name } => name,
    }
}

} // verus!
