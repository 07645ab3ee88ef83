//! The server's decisions: what a connection's handler does with each
//! event, and what the listener does about admission, failed accepts and
//! shutdown. Whoever owns the sockets waits for the events, hands them in
//! and carries out what comes back.

use crate::cmd::get::get_reply;
use crate::cmd::set::{spec_expire, spec_set};
use crate::cmd::{spec_command, spec_from_frame, spec_name, Command, CommandView};
use crate::cmd::subscribe::{
    handle_command, make_message_frame, message_frame, subscribe_replies, subscribed, texts_of,
    unsubscribe_replies, unsubscribe_targets, unsubscribed, with_channels, Subscribe,
};
use crate::cmd::unknown::unknown_text;
use crate::connection::Connection;
use crate::db::{after_set, wakes_worker, Db, DbView};
use crate::frame::{spec_encode, Frame, FrameView};
use crate::payload::bytes_view;
use crate::shutdown::Shutdown;
use crate::streams::{stream_names, streams_new, Subscriptions};
use crate::time::{Instant, LAST_INSTANT, NANOS_PER_SEC};
use bytes::Bytes;
use vstd::prelude::*;

verus! {

/// The number of connections that the server serves at a time.
pub const MAX_CONNECTIONS: usize = 250;

/// The longest wait, in seconds, after which a failed accept is tried
/// again.
pub const MAX_BACKOFF: u64 = 64;

/// What a handler waits for.
pub enum Event {
    /// A frame has arrived from the client.
    Frame(Frame),
    /// The client has closed the connection between two frames.
    Eof,
    /// The server shuts down.
    Shutdown,
    /// A message has been published on a channel that the client has.
    Message(String, Bytes),
}

/// How a handler goes on after an event.
#[derive(Debug, PartialEq, Eq)]
pub enum Next {
    /// It waits for the next event.
    Continue,
    /// It returns; the connection ends in good order.
    Return,
    /// It returns with an error; the connection ends.
    Fail(String),
}

/// What a handler has done about an event, and what is left to do for the
/// owner of the connection: to send the connection's output, and then what
/// stands here.
#[derive(Debug, PartialEq, Eq)]
pub struct Step {
    /// How the handler goes on.
    pub next: Next,
    /// Whether the expiration worker is to be woken.
    pub notify: bool,
}

/// The text of the error for an `UNSUBSCRIBE` from a client that is not in
/// subscriber mode.
pub open spec fn unsupported_text() -> Seq<char> {
    "'Unsubscribe' is unsupported in this context"@
}

/// A time to live that was read from a frame is at most `u64::MAX` seconds.
pub proof fn lemma_parsed_expire(frame: FrameView)
    ensures
        spec_from_frame(frame) matches Ok(CommandView::SetCmd { expire: Some(d), .. })
            ==> d.nanos <= u64::MAX * NANOS_PER_SEC,
{
    if let FrameView::Array(items) = frame {
        if items.len() > 0 {
            let args = items.subrange(1, items.len() as int);
            if let Ok(cmd) = spec_command(items) {
                if let CommandView::SetCmd { expire: Some(d), .. } = cmd {
                    assert(spec_set(args) is Ok);
                    assert(spec_expire(args) is Ok);
                }
            }
        }
    }
}

/// The handler of one connection.
pub struct Handler {
    shutdown: Shutdown,
    subscriber: bool,
    /// The channels that the connection is subscribed to, with their
    /// messages. The owner of the connection polls them, and hands each
    /// message in as an event.
    pub subscriptions: Subscriptions,
    pending: Vec<String>,
}

impl Handler {
    /// Whether the handler has been told that the server shuts down.
    pub closed spec fn is_shutdown(&self) -> bool {
        self.shutdown.spec_is_shutdown()
    }

    /// Whether the connection is in subscriber mode.
    pub closed spec fn subscriber(&self) -> bool {
        self.subscriber
    }

    /// The channels that the connection is subscribed to.
    pub closed spec fn names(&self) -> Seq<Seq<char>> {
        stream_names(self.subscriptions)
    }

    /// Whether the handler is in order: no channel waits to be subscribed
    /// to.
    pub closed spec fn wf(&self) -> bool {
        self.pending@.len() == 0
    }

    /// A handler in command mode.
    pub fn new() -> (handler: Handler)
        ensures
            handler.wf(),
            !handler.is_shutdown(),
            !handler.subscriber(),
            handler.names() == Seq::<Seq<char>>::empty(),
    {
        Handler {
            shutdown: Shutdown::new(),
            subscriber: false,
            subscriptions: streams_new(),
            pending: Vec::new(),
        }
    }

    /// Whether the handler is to go on: it stops once it has been told of
    /// the shutdown.
    pub fn running(&self) -> (b: bool)
        ensures
            b == !self.is_shutdown(),
    {
        !self.shutdown.is_shutdown()
    }

    /// Whether the connection is in subscriber mode.
    pub fn in_subscriber_mode(&self) -> (b: bool)
        ensures
            b == self.subscriber(),
    {
        self.subscriber
    }

    /// Ends the connection on an error: the client is told, where that is
    /// still possible, and the handler fails.
    fn fail(msg: String, conn: &mut Connection) -> (step: Step)
        ensures
            step.next matches Next::Fail(e) && e@ == msg@,
            !step.notify,
            final(conn).input() == old(conn).input(),
            final(conn).output() == old(conn).output() + spec_encode(FrameView::Error(msg@)),
    {
        let response = Frame::Error(msg.clone());
        conn.write_frame(&response);
        Step { next: Next::Fail(msg), notify: false }
    }

    /// A step after which the handler goes on.
    fn proceed(notify: bool) -> (step: Step)
        ensures
            step.next is Continue,
            step.notify == notify,
    {
        Step { next: Next::Continue, notify }
    }

    /// Handles a frame in command mode.
    fn on_command(
        &mut self,
        frame: Frame,
        db: &mut Db,
        conn: &mut Connection,
        now: Instant,
    ) -> (step: Step)
        requires
            old(self).wf(),
            !old(self).subscriber(),
            old(db).wf(),
            old(db)@.next_id < u64::MAX,
            now <= LAST_INSTANT,
        ensures
            final(self).wf(),
            final(db).wf(),
            final(self).is_shutdown() == old(self).is_shutdown(),
            final(conn).input() == old(conn).input(),
            command_step(
                spec_from_frame(frame@),
                old(self).names(),
                old(db)@,
                now,
                step,
                final(self).subscriber(),
                final(self).names(),
                final(db)@,
                old(conn).output(),
                final(conn).output(),
            ),
    {
        proof {
            lemma_parsed_expire(frame@);
        }
        match Command::from_frame(frame) {
            Err(msg) => Handler::fail(msg, conn),
            Ok(Command::Get(cmd)) => {
                cmd.apply(db, conn);
                Handler::proceed(false)
            },
            Ok(Command::Publish(cmd)) => {
                cmd.apply(db, conn);
                Handler::proceed(false)
            },
            Ok(Command::SetCmd(cmd)) => {
                let notify = cmd.apply(db, conn, now);
                Handler::proceed(notify)
            },
            Ok(Command::Subscribe(cmd)) => {
                self.subscriber = true;
                self.pending = cmd.into_channels();
                Subscribe::apply(&mut self.pending, &mut self.subscriptions, db, conn);
                Handler::proceed(false)
            },
            Ok(Command::Unknown(cmd)) => {
                cmd.apply(conn);
                Handler::proceed(false)
            },
            Ok(Command::Unsubscribe(_)) => Handler::fail(
                "'Unsubscribe' is unsupported in this context".to_owned(),
                conn,
            ),
        }
    }

    /// Handles a frame in subscriber mode.
    fn on_subscriber(&mut self, frame: Frame, db: &mut Db, conn: &mut Connection) -> (step: Step)
        requires
            old(self).wf(),
            old(self).subscriber(),
            old(db).wf(),
        ensures
            final(self).wf(),
            final(db).wf(),
            final(self).subscriber(),
            final(self).is_shutdown() == old(self).is_shutdown(),
            final(conn).input() == old(conn).input(),
            subscriber_step(
                spec_from_frame(frame@),
                old(self).names(),
                old(db)@,
                step,
                final(self).names(),
                final(db)@,
                old(conn).output(),
                final(conn).output(),
            ),
    {
        let ghost pending0 = texts_of(self.pending@);
        match handle_command(frame, &mut self.pending, &mut self.subscriptions, conn) {
            Err(msg) => {
                assert(texts_of(self.pending@).len() == pending0.len());
                Handler::fail(msg, conn)
            },
            Ok(()) => {
                let ghost out1 = conn.output();
                let ghost channels = texts_of(self.pending@);
                assert(channels.len() == 0 ==> channels =~= Seq::<Seq<char>>::empty());
                Subscribe::apply(&mut self.pending, &mut self.subscriptions, db, conn);
                assert(out1 + Seq::<u8>::empty() =~= out1);
                assert(Seq::<Seq<char>>::empty() + channels =~= channels);
                Handler::proceed(false)
            },
        }
    }

    /// Handles one event. What the client is to be told is written to the
    /// connection; the state of the database and of the handler follow the
    /// command.
    pub fn on_event(
        &mut self,
        event: Event,
        db: &mut Db,
        conn: &mut Connection,
        now: Instant,
    ) -> (step: Step)
        requires
            old(self).wf(),
            old(db).wf(),
            old(db)@.next_id < u64::MAX,
            now <= LAST_INSTANT,
        ensures
            final(self).wf(),
            final(db).wf(),
            final(conn).input() == old(conn).input(),
            match event {
                Event::Shutdown => {
                    &&& step.next is Return
                    &&& final(self).is_shutdown()
                    &&& quiet(step)
                    &&& final(self).subscriber() == old(self).subscriber()
                    &&& final(self).names() == old(self).names()
                    &&& final(db)@ == old(db)@
                    &&& final(conn).output() == old(conn).output()
                },
                Event::Eof => {
                    &&& step.next is Return
                    &&& final(self).is_shutdown() == old(self).is_shutdown()
                    &&& quiet(step)
                    &&& final(self).subscriber() == old(self).subscriber()
                    &&& final(self).names() == old(self).names()
                    &&& final(db)@ == old(db)@
                    &&& final(conn).output() == old(conn).output()
                },
                Event::Message(channel, payload) => {
                    &&& step.next is Continue
                    &&& final(self).is_shutdown() == old(self).is_shutdown()
                    &&& quiet(step)
                    &&& final(self).subscriber() == old(self).subscriber()
                    &&& final(self).names() == old(self).names()
                    &&& final(db)@ == old(db)@
                    &&& final(conn).output() == old(conn).output() + spec_encode(
                        message_frame(channel@, bytes_view(payload)),
                    )
                },
                Event::Frame(frame) => {
                    &&& final(self).is_shutdown() == old(self).is_shutdown()
                    &&& if old(self).subscriber() {
                        &&& final(self).subscriber()
                        &&& subscriber_step(
                            spec_from_frame(frame@),
                            old(self).names(),
                            old(db)@,
                            step,
                            final(self).names(),
                            final(db)@,
                            old(conn).output(),
                            final(conn).output(),
                        )
                    } else {
                        command_step(
                            spec_from_frame(frame@),
                            old(self).names(),
                            old(db)@,
                            now,
                            step,
                            final(self).subscriber(),
                            final(self).names(),
                            final(db)@,
                            old(conn).output(),
                            final(conn).output(),
                        )
                    }
                },
            },
    {
        match event {
            Event::Shutdown => {
                self.shutdown.recv();
                Step { next: Next::Return, notify: false }
            },
            Event::Eof => Step { next: Next::Return, notify: false },
            Event::Message(channel, payload) => {
                let frame = make_message_frame(channel, payload);
                conn.write_frame(&frame);
                Handler::proceed(false)
            },
            Event::Frame(frame) => {
                if self.subscriber {
                    self.on_subscriber(frame, db, conn)
                } else {
                    self.on_command(frame, db, conn, now)
                }
            },
        }
    }
}

/// Where the listener stands.
#[derive(Clone, Copy, Debug, PartialEq, Eq)]
pub enum Phase {
    /// It takes connections.
    Accepting,
    /// It takes no more, and waits for the handlers to return.
    Draining,
    /// Every handler has returned: the server exits.
    Stopped,
}

/// What happens to the listener.
#[derive(Clone, Copy, Debug, PartialEq, Eq)]
pub enum ListenerEvent {
    /// It is free to take the next connection.
    Ready,
    /// A connection has been accepted.
    Accepted,
    /// An attempt to accept has failed.
    AcceptFailed,
    /// A handler has returned, in whatever way.
    HandlerDone,
    /// The signal to shut down has come.
    Shutdown,
}

/// What the listener is to do.
#[derive(Clone, Copy, Debug, PartialEq, Eq)]
pub enum ListenerAction {
    /// Nothing but to wait for the next event.
    Idle,
    /// To wait until a handler returns, and be ready again: no permit is
    /// free.
    AwaitPermit,
    /// To accept a connection: a permit is held for it.
    Accept,
    /// To start a handler for the connection accepted, with the permit.
    Spawn,
    /// To sleep that many seconds, and accept again.
    Retry(u64),
    /// To tell every handler that the server shuts down.
    NotifyShutdown,
    /// To exit.
    Exit,
}

/// The listener: the permits, the handlers that run, the wait before the
/// next attempt to accept, and the phase.
#[derive(Clone, Copy, Debug)]
pub struct Listener {
    /// The permits that are free.
    pub available: usize,
    /// The handlers that run, each with a permit.
    pub handlers: usize,
    /// Whether the listener holds a permit for the connection to come.
    pub holding: bool,
    /// The seconds to wait after the next failed accept.
    pub backoff: u64,
    /// The phase.
    pub phase: Phase,
}

/// Whether the listener is in order: the permits add up, each being free,
/// with a handler, or held by the listener; and the listener waits for
/// handlers only while some run.
pub open spec fn listener_wf(s: Listener) -> bool {
    &&& s.available + s.handlers + (if s.holding { 1int } else { 0int }) == MAX_CONNECTIONS
    &&& 1 <= s.backoff <= 2 * MAX_BACKOFF
    &&& s.phase is Stopped ==> s.handlers == 0
    &&& s.phase is Draining ==> s.handlers > 0
}

/// The phase after the listener has stopped taking connections.
pub open spec fn drained(s: Listener) -> Phase {
    if s.handlers == 0 {
        Phase::Stopped
    } else {
        Phase::Draining
    }
}

/// The listener after an event, and what it is to do.
pub open spec fn listener_step(s: Listener, event: ListenerEvent) -> (Listener, ListenerAction) {
    match event {
        ListenerEvent::Ready => if !(s.phase is Accepting) {
            (s, ListenerAction::Idle)
        } else if s.holding {
            (s, ListenerAction::Accept)
        } else if s.available > 0 {
            (
                Listener { available: (s.available - 1) as usize, holding: true, backoff: 1, ..s },
                ListenerAction::Accept,
            )
        } else {
            (s, ListenerAction::AwaitPermit)
        },
        ListenerEvent::Accepted => if s.phase is Accepting && s.holding {
            (
                Listener { handlers: (s.handlers + 1) as usize, holding: false, ..s },
                ListenerAction::Spawn,
            )
        } else {
            (s, ListenerAction::Idle)
        },
        ListenerEvent::AcceptFailed => if !(s.phase is Accepting) {
            (s, ListenerAction::Idle)
        } else if s.backoff > MAX_BACKOFF {
            (
                Listener { phase: drained(s), ..s },
                if s.handlers == 0 {
                    ListenerAction::Exit
                } else {
                    ListenerAction::NotifyShutdown
                },
            )
        } else {
            (Listener { backoff: (2 * s.backoff) as u64, ..s }, ListenerAction::Retry(s.backoff))
        },
        ListenerEvent::HandlerDone => if s.handlers == 0 {
            (s, ListenerAction::Idle)
        } else {
            let t = Listener {
                handlers: (s.handlers - 1) as usize,
                available: (s.available + 1) as usize,
                ..s
            };
            if s.phase is Draining && t.handlers == 0 {
                (Listener { phase: Phase::Stopped, ..t }, ListenerAction::Exit)
            } else {
                (t, ListenerAction::Idle)
            }
        },
        ListenerEvent::Shutdown => if s.phase is Accepting {
            (
                Listener { phase: drained(s), ..s },
                if s.handlers == 0 {
                    ListenerAction::Exit
                } else {
                    ListenerAction::NotifyShutdown
                },
            )
        } else {
            (s, ListenerAction::Idle)
        },
    }
}

impl Listener {
    /// A listener with every permit free.
    pub fn new() -> (listener: Listener)
        ensures
            listener_wf(listener),
            listener.available == MAX_CONNECTIONS,
            listener.handlers == 0,
            !listener.holding,
            listener.backoff == 1,
            listener.phase is Accepting,
    {
        Listener {
            available: MAX_CONNECTIONS,
            handlers: 0,
            holding: false,
            backoff: 1,
            phase: Phase::Accepting,
        }
    }

    /// The number of handlers that run.
    pub fn active(&self) -> (n: usize)
        requires
            listener_wf(*self),
        ensures
            n == self.handlers,
            n <= MAX_CONNECTIONS,
    {
        self.handlers
    }

    /// The phase after the listener has stopped taking connections.
    fn drain(&mut self) -> (action: ListenerAction)
        ensures
            *final(self) == (Listener { phase: drained(*old(self)), ..*old(self) }),
            action == if old(self).handlers == 0 {
                ListenerAction::Exit
            } else {
                ListenerAction::NotifyShutdown
            },
    {
        if self.handlers == 0 {
            self.phase = Phase::Stopped;
            ListenerAction::Exit
        } else {
            self.phase = Phase::Draining;
            ListenerAction::NotifyShutdown
        }
    }

    /// The wait after a failed accept: one second at first, twice as long
    /// each time, and none after the wait of 64 seconds: the failure is
    /// then final.
    fn accept(&mut self) -> (wait: Option<u64>)
        requires
            listener_wf(*old(self)),
        ensures
            old(self).backoff > MAX_BACKOFF ==> wait is None && *final(self) == *old(self),
            old(self).backoff <= MAX_BACKOFF ==> wait == Some(old(self).backoff) && *final(self)
                == (Listener { backoff: (2 * old(self).backoff) as u64, ..*old(self) }),
    {
        if self.backoff > MAX_BACKOFF {
            None
        } else {
            let wait = self.backoff;
            self.backoff = 2 * wait;
            Some(wait)
        }
    }

    /// Takes an event in and tells what to do. The listener takes a
    /// connection only with a permit in hand, so the handlers are never
    /// more than the permits; once it shuts down it takes no connection any
    /// more, and it exits when the last handler has returned.
    pub fn run(&mut self, event: ListenerEvent) -> (action: ListenerAction)
        requires
            listener_wf(*old(self)),
        ensures
            listener_wf(*final(self)),
            (*final(self), action) == listener_step(*old(self), event),
    {
        let accepting = match self.phase {
            Phase::Accepting => true,
            _ => false,
        };
        match event {
            ListenerEvent::Ready => {
                if !accepting {
                    ListenerAction::Idle
                } else if self.holding {
                    ListenerAction::Accept
                } else if self.available > 0 {
                    self.available = self.available - 1;
                    self.holding = true;
                    self.backoff = 1;
                    ListenerAction::Accept
                } else {
                    ListenerAction::AwaitPermit
                }
            },
            ListenerEvent::Accepted => {
                if accepting && self.holding {
                    self.handlers = self.handlers + 1;
                    self.holding = false;
                    ListenerAction::Spawn
                } else {
                    ListenerAction::Idle
                }
            },
            ListenerEvent::AcceptFailed => {
                if !accepting {
                    ListenerAction::Idle
                } else {
                    match self.accept() {
                        Some(wait) => ListenerAction::Retry(wait),
                        None => self.drain(),
                    }
                }
            },
            ListenerEvent::HandlerDone => {
                if self.handlers == 0 {
                    ListenerAction::Idle
                } else {
                    self.handlers = self.handlers - 1;
                    self.available = self.available + 1;
                    let draining = match self.phase {
                        Phase::Draining => true,
                        _ => false,
                    };
                    if draining && self.handlers == 0 {
                        self.phase = Phase::Stopped;
                        ListenerAction::Exit
                    } else {
                        ListenerAction::Idle
                    }
                }
            },
            ListenerEvent::Shutdown => {
                if accepting {
                    self.drain()
                } else {
                    ListenerAction::Idle
                }
            },
        }
    }
}

/// The handlers never outnumber the permits: the count of permits holds
/// after every event, and with it the handlers are at most
/// `MAX_CONNECTIONS`.
pub proof fn lemma_handlers_bounded(s: Listener, event: ListenerEvent)
    requires
        listener_wf(s),
    ensures
        s.handlers <= MAX_CONNECTIONS,
        listener_wf(listener_step(s, event).0),
        listener_step(s, event).0.handlers <= MAX_CONNECTIONS,
{
}

/// A handler is started only with a permit that the listener took while one
/// was free: with every permit with a handler, the listener waits.
pub proof fn lemma_admission(s: Listener)
    requires
        listener_wf(s),
        s.phase is Accepting,
        s.handlers == MAX_CONNECTIONS,
    ensures
        listener_step(s, ListenerEvent::Ready).1 == ListenerAction::AwaitPermit,
        listener_step(s, ListenerEvent::Accepted).1 == ListenerAction::Idle,
        listener_step(listener_step(s, ListenerEvent::HandlerDone).0, ListenerEvent::Ready).1
            == ListenerAction::Accept,
{
}

/// Once the listener shuts down it takes no connection any more, whatever
/// happens; it has stopped exactly when no handler runs, and it does not
/// tell to exit while one does.
pub proof fn lemma_shutdown(s: Listener, event: ListenerEvent)
    requires
        listener_wf(s),
    ensures
        ({
            let (t, action) = listener_step(s, ListenerEvent::Shutdown);
            &&& !(t.phase is Accepting)
            &&& t.phase is Stopped <==> t.handlers == 0
            &&& action == ListenerAction::Exit <==> t.handlers == 0 && s.phase is Accepting
        }),
        !(s.phase is Accepting) ==> ({
            let (t, action) = listener_step(s, event);
            &&& !(t.phase is Accepting)
            &&& action != ListenerAction::Accept
            &&& action != ListenerAction::Spawn
            &&& t.handlers <= s.handlers
            &&& action == ListenerAction::Exit ==> t.handlers == 0 && t.phase is Stopped
            &&& t.phase is Stopped <==> t.handlers == 0
        }),
{
}

/// Whether a step leaves nothing to do but to send the output.
pub open spec fn quiet(step: Step) -> bool {
    !step.notify
}

/// What a handler in command mode does about a frame, read as the command
/// `cmd` or as the error of reading it. `names0`, `db0` and `out0` are the
/// connection's channels, the database and the connection's output before;
/// `names1`, `db1` and `out1` after.
pub open spec fn command_step(
    cmd: Result<CommandView, Seq<char>>,
    names0: Seq<Seq<char>>,
    db0: DbView,
    now: Instant,
    step: Step,
    subscriber1: bool,
    names1: Seq<Seq<char>>,
    db1: DbView,
    out0: Seq<u8>,
    out1: Seq<u8>,
) -> bool {
    match cmd {
        Err(msg) => {
            &&& step.next matches Next::Fail(e) && e@ == msg
            &&& quiet(step)
            &&& !subscriber1
            &&& names1 == names0
            &&& db1 == db0
            &&& out1 == out0 + spec_encode(FrameView::Error(msg))
        },
        Ok(CommandView::Get { key }) => {
            &&& step.next is Continue
            &&& quiet(step)
            &&& !subscriber1
            &&& names1 == names0
            &&& db1 == db0
            &&& out1 == out0 + spec_encode(get_reply(db0, key))
        },
        Ok(CommandView::Publish { channel, message }) => {
            &&& step.next is Continue
            &&& quiet(step)
            &&& !subscriber1
            &&& names1 == names0
            &&& db1 == db0
            &&& exists|count: usize|
                {
                    &&& out1 == out0 + #[trigger] spec_encode(FrameView::Integer(count as u64))
                    &&& !db0.channels.contains(channel) ==> count == 0
                }
        },
        Ok(CommandView::SetCmd { key, value, expire }) => {
            &&& step.next is Continue
            &&& step.notify == wakes_worker(db0, expire, now)
            &&& !subscriber1
            &&& names1 == names0
            &&& db1 == after_set(db0, key, value, expire, now)
            &&& out1 == out0 + spec_encode(FrameView::Simple("OK"@))
        },
        Ok(CommandView::Subscribe { channels }) => {
            &&& step.next is Continue
            &&& quiet(step)
            &&& subscriber1
            &&& names1 == subscribed(names0, channels)
            &&& db1 == with_channels(db0, channels)
            &&& out1 == out0 + subscribe_replies(names0, channels)
        },
        Ok(CommandView::Unsubscribe { channels }) => {
            &&& step.next matches Next::Fail(e) && e@ == unsupported_text()
            &&& quiet(step)
            &&& !subscriber1
            &&& names1 == names0
            &&& db1 == db0
            &&& out1 == out0 + spec_encode(FrameView::Error(unsupported_text()))
        },
        Ok(CommandView::Unknown { name }) => {
            &&& step.next is Continue
            &&& quiet(step)
            &&& !subscriber1
            &&& names1 == names0
            &&& db1 == db0
            &&& out1 == out0 + spec_encode(FrameView::Error(unknown_text(name)))
        },
    }
}

/// What a handler in subscriber mode does about a frame, read as the command
/// `cmd` or as the error of reading it.
pub open spec fn subscriber_step(
    cmd: Result<CommandView, Seq<char>>,
    names0: Seq<Seq<char>>,
    db0: DbView,
    step: Step,
    names1: Seq<Seq<char>>,
    db1: DbView,
    out0: Seq<u8>,
    out1: Seq<u8>,
) -> bool {
    match cmd {
        Err(msg) => {
            &&& step.next matches Next::Fail(e) && e@ == msg
            &&& quiet(step)
            &&& names1 == names0
            &&& db1 == db0
            &&& out1 == out0 + spec_encode(FrameView::Error(msg))
        },
        Ok(CommandView::Subscribe { channels }) => {
            &&& step.next is Continue
            &&& quiet(step)
            &&& names1 == subscribed(names0, channels)
            &&& db1 == with_channels(db0, channels)
            &&& out1 == out0 + subscribe_replies(names0, channels)
        },
        Ok(CommandView::Unsubscribe { channels }) => {
            let targets = unsubscribe_targets(names0, channels);
            &&& step.next is Continue
            &&& quiet(step)
            &&& names1 == unsubscribed(names0, targets)
            &&& db1 == db0
            &&& out1 == out0 + unsubscribe_replies(names0, targets)
        },
        Ok(cmd) => {
            &&& step.next is Continue
            &&& quiet(step)
            &&& names1 == names0
            &&& db1 == db0
            &&& out1 == out0 + spec_encode(FrameView::Error(unknown_text(spec_name(cmd))))
        },
    }
}

/// An `UNSUBSCRIBE` that names no channel, from a subscriber that has none,
/// does nothing and ends nothing: no answer is written, no subscription and
/// nothing in the database changes, and the handler goes on.
pub proof fn lemma_unsubscribe_nothing(
    step: Step,
    db0: DbView,
    names1: Seq<Seq<char>>,
    db1: DbView,
    out0: Seq<u8>,
    out1: Seq<u8>,
)
    requires
        subscriber_step(
            Ok(CommandView::Unsubscribe { channels: Seq::empty() }),
            Seq::empty(),
            db0,
            step,
            names1,
            db1,
            out0,
            out1,
        ),
    ensures
        step.next is Continue,
        quiet(step),
        names1 == Seq::<Seq<char>>::empty(),
        db1 == db0,
        out1 == out0,
{
    let none = Seq::<Seq<char>>::empty();
    assert(unsubscribe_targets(none, none) == none);
    assert(out0 + Seq::<u8>::empty() =~= out0);
}

} // verus!
