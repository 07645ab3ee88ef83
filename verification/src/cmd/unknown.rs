//! A command that the server does not know.

use crate::cmd::CommandView;
use crate::connection::Connection;
use crate::frame::{spec_encode, Frame, FrameView};
use vstd::prelude::*;
use vstd::string::StringExecFns;

verus! {

/// A command that the server does not know, by its name.
#[derive(Debug, PartialEq, Eq)]
pub struct Unknown {
    command_name: String,
}

/// The text of the reply to a command named `name` that the server does not
/// know.
pub open spec fn unknown_text(name: Seq<char>) -> Seq<char> {
    "ERR unknown command '"@ + name + "'"@
}

impl View for Unknown {
    type V = CommandView;

    open spec fn view(&self) -> CommandView {
        CommandView::Unknown { name: self.spec_name() }
    }
}

impl Unknown {
    /// The command's name.
    pub closed spec fn spec_name(&self) -> Seq<char> {
        self.command_name@
    }

    /// An unknown command named `key`.
    pub fn new(key: &str) -> (unknown: Unknown)
        ensures
            unknown@ == (CommandView::Unknown { name: key@ }),
    {
        Unknown { command_name: key.to_owned() }
    }

    /// The command's name.
    pub fn get_name(&self) -> (name: &str)
        ensures
            name@ == self.spec_name(),
    {
        self.command_name.as_str()
    }

    /// Answers the command: an error frame that names it is written.
    pub fn apply(self, dst: &mut Connection)
        ensures
            final(dst).input() == old(dst).input(),
            final(dst).output() == old(dst).output() + spec_encode(
                FrameView::Error(unknown_text(self.spec_name())),
            ),
    {
        let msg = "ERR unknown command '".to_owned();
        let msg = msg.concat(self.command_name.as_str());
        let msg = msg.concat("'");
        let response = Frame::Error(msg);
        dst.write_frame(&response);
    }
}

} // verus!
