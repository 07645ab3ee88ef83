use bytes::Bytes;
use mini_redis::cmd::subscribe::{
    handle_command, make_message_frame, make_subscribe_frame, make_unsubscribe_frame,
    subscribe_to_channel,
};
use mini_redis::connection::Connection;
use mini_redis::db::Db;
use mini_redis::frame::Frame;
use mini_redis::server::{
    Event, Handler, Listener, ListenerAction, ListenerEvent, Next, Phase, MAX_BACKOFF,
    MAX_CONNECTIONS,
};
use mini_redis::shutdown::Shutdown;
use mini_redis::streams::Subscriptions;
use tokio_stream::StreamExt;

fn command(words: &[&str]) -> Frame {
    Frame::Array(
        words
            .iter()
            .map(|w| Frame::Bulk(Bytes::copy_from_slice(w.as_bytes())))
            .collect(),
    )
}

fn strings(words: &[&str]) -> Vec<String> {
    words.iter().map(|w| w.to_string()).collect()
}

fn keys(subscriptions: &Subscriptions) -> Vec<String> {
    subscriptions.keys().cloned().collect()
}

fn next_message(subscriptions: &mut Subscriptions) -> Option<(String, Bytes)> {
    let runtime = tokio::runtime::Builder::new_current_thread().build().unwrap();
    runtime.block_on(async {
        match subscriptions.next().await {
            Some((channel, Ok(msg))) => Some((channel, msg)),
            _ => None,
        }
    })
}

struct Peer {
    handler: Handler,
    conn: Connection,
}

fn peer() -> Peer {
    Peer { handler: Handler::new(), conn: Connection::new() }
}

fn send(peer: &mut Peer, db: &mut Db, now: u128, words: &[&str]) -> (Next, Vec<u8>) {
    let step = peer
        .handler
        .on_event(Event::Frame(command(words)), db, &mut peer.conn, now);
    (step.next, peer.conn.take_output())
}

#[test]
fn set_then_get() {
    let mut db = Db::new();
    let mut a = peer();
    assert_eq!(
        send(&mut a, &mut db, 0, &["SET", "foo", "bar"]),
        (Next::Continue, b"+OK\r\n".to_vec())
    );
    assert_eq!(
        send(&mut a, &mut db, 1, &["GET", "foo"]),
        (Next::Continue, b"$3\r\nbar\r\n".to_vec())
    );
    assert_eq!(
        send(&mut a, &mut db, 2, &["GET", "baz"]),
        (Next::Continue, b"$-1\r\n".to_vec())
    );
    let mut b = peer();
    assert_eq!(
        send(&mut b, &mut db, 3, &["GET", "foo"]),
        (Next::Continue, b"$3\r\nbar\r\n".to_vec())
    );
}

#[test]
fn set_with_px_then_get_after_it_expired() {
    let mut db = Db::new();
    let mut a = peer();
    let start: u128 = 1_000_000_000;
    let step = a.handler.on_event(
        Event::Frame(command(&["SET", "tmp", "x", "PX", "50"])),
        &mut db,
        &mut a.conn,
        start,
    );
    assert_eq!(step.next, Next::Continue);
    assert!(step.notify);
    assert_eq!(a.conn.take_output(), b"+OK\r\n");
    assert_eq!(
        send(&mut a, &mut db, start + 1, &["GET", "tmp"]),
        (Next::Continue, b"$1\r\nx\r\n".to_vec())
    );
    let later = start + 100_000_000;
    db.purge_expired_tasks(later);
    assert_eq!(
        send(&mut a, &mut db, later, &["GET", "tmp"]),
        (Next::Continue, b"$-1\r\n".to_vec())
    );
}

#[test]
fn subscribe_publish_message() {
    let mut db = Db::new();
    let mut a = peer();
    let mut b = peer();
    let step = a
        .handler
        .on_event(Event::Frame(command(&["SUBSCRIBE", "news"])), &mut db, &mut a.conn, 0);
    assert_eq!(step.next, Next::Continue);
    assert!(!step.notify);
    assert!(a.handler.in_subscriber_mode());
    assert_eq!(a.conn.take_output(), b"*3\r\n$9\r\nsubscribe\r\n$4\r\nnews\r\n:1\r\n");
    assert_eq!(keys(&a.handler.subscriptions), strings(&["news"]));
    assert_eq!(
        send(&mut b, &mut db, 1, &["PUBLISH", "news", "hi"]),
        (Next::Continue, b":1\r\n".to_vec())
    );
    let (name, payload) = next_message(&mut a.handler.subscriptions).unwrap();
    assert_eq!(name, "news");
    assert_eq!(payload, Bytes::from_static(b"hi"));
    let step = a
        .handler
        .on_event(Event::Message(name, payload), &mut db, &mut a.conn, 2);
    assert_eq!(step.next, Next::Continue);
    assert_eq!(a.conn.take_output(), b"*3\r\n$7\r\nmessage\r\n$4\r\nnews\r\n$2\r\nhi\r\n");
}

#[test]
fn messages_reach_the_subscriber_in_the_order_published() {
    let mut db = Db::new();
    let mut a = peer();
    let mut b = peer();
    send(&mut a, &mut db, 0, &["SUBSCRIBE", "c"]);
    send(&mut b, &mut db, 1, &["PUBLISH", "c", "m1"]);
    send(&mut b, &mut db, 2, &["PUBLISH", "c", "m2"]);
    for _ in 0..2 {
        let (name, payload) = next_message(&mut a.handler.subscriptions).unwrap();
        a.handler.on_event(Event::Message(name, payload), &mut db, &mut a.conn, 3);
    }
    assert_eq!(
        a.conn.take_output(),
        b"*3\r\n$7\r\nmessage\r\n$1\r\nc\r\n$2\r\nm1\r\n*3\r\n$7\r\nmessage\r\n$1\r\nc\r\n$2\r\nm2\r\n"
    );
}

#[test]
fn publish_with_no_subscriber_answers_zero() {
    let mut db = Db::new();
    let mut a = peer();
    assert_eq!(
        send(&mut a, &mut db, 0, &["PUBLISH", "nobody", "hi"]),
        (Next::Continue, b":0\r\n".to_vec())
    );
}

#[test]
fn unsubscribe_from_all() {
    let mut db = Db::new();
    let mut a = peer();
    let step = a
        .handler
        .on_event(Event::Frame(command(&["SUBSCRIBE", "a", "b"])), &mut db, &mut a.conn, 0);
    assert_eq!(step.next, Next::Continue);
    assert_eq!(keys(&a.handler.subscriptions), strings(&["a", "b"]));
    assert_eq!(
        a.conn.take_output(),
        b"*3\r\n$9\r\nsubscribe\r\n$1\r\na\r\n:1\r\n*3\r\n$9\r\nsubscribe\r\n$1\r\nb\r\n:2\r\n"
    );
    let step = a
        .handler
        .on_event(Event::Frame(command(&["UNSUBSCRIBE"])), &mut db, &mut a.conn, 1);
    assert_eq!(step.next, Next::Continue);
    assert!(keys(&a.handler.subscriptions).is_empty());
    assert_eq!(
        a.conn.take_output(),
        b"*3\r\n$11\r\nunsubscribe\r\n$1\r\na\r\n:1\r\n*3\r\n$11\r\nunsubscribe\r\n$1\r\nb\r\n:0\r\n"
    );
    let step = a
        .handler
        .on_event(Event::Frame(command(&["UNSUBSCRIBE"])), &mut db, &mut a.conn, 2);
    assert_eq!(step.next, Next::Continue);
    assert!(!step.notify);
    assert!(keys(&a.handler.subscriptions).is_empty());
    assert_eq!(a.conn.take_output(), b"");
    assert!(a.handler.in_subscriber_mode());
}

#[test]
fn unsubscribe_by_name() {
    let mut db = Db::new();
    let mut a = peer();
    send(&mut a, &mut db, 0, &["SUBSCRIBE", "a", "b", "c"]);
    let step = a
        .handler
        .on_event(Event::Frame(command(&["UNSUBSCRIBE", "a", "x"])), &mut db, &mut a.conn, 1);
    assert_eq!(step.next, Next::Continue);
    assert_eq!(keys(&a.handler.subscriptions), strings(&["c", "b"]));
    assert_eq!(
        a.conn.take_output(),
        b"*3\r\n$11\r\nunsubscribe\r\n$1\r\na\r\n:2\r\n*3\r\n$11\r\nunsubscribe\r\n$1\r\nx\r\n:2\r\n"
    );
    a.handler
        .on_event(Event::Frame(command(&["UNSUBSCRIBE"])), &mut db, &mut a.conn, 2);
    assert_eq!(
        a.conn.take_output(),
        b"*3\r\n$11\r\nunsubscribe\r\n$1\r\nc\r\n:1\r\n*3\r\n$11\r\nunsubscribe\r\n$1\r\nb\r\n:0\r\n"
    );
}

#[test]
fn subscribing_twice_counts_once() {
    let mut db = Db::new();
    let mut a = peer();
    let (_, out) = send(&mut a, &mut db, 0, &["SUBSCRIBE", "a", "a"]);
    assert_eq!(
        out,
        b"*3\r\n$9\r\nsubscribe\r\n$1\r\na\r\n:1\r\n*3\r\n$9\r\nsubscribe\r\n$1\r\na\r\n:1\r\n"
    );
    let (_, out) = send(&mut a, &mut db, 0, &["SUBSCRIBE", "b"]);
    assert_eq!(out, b"*3\r\n$9\r\nsubscribe\r\n$1\r\nb\r\n:2\r\n");
}

#[test]
fn other_commands_in_subscriber_mode_are_unknown() {
    let mut db = Db::new();
    let mut a = peer();
    send(&mut a, &mut db, 0, &["SUBSCRIBE", "a"]);
    assert_eq!(
        send(&mut a, &mut db, 1, &["GET", "foo"]),
        (Next::Continue, b"-ERR unknown command 'get'\r\n".to_vec())
    );
    assert_eq!(
        send(&mut a, &mut db, 1, &["PUBLISH", "a", "x"]),
        (Next::Continue, b"-ERR unknown command 'pub'\r\n".to_vec())
    );
    assert_eq!(
        send(&mut a, &mut db, 1, &["SET", "k", "v"]),
        (Next::Continue, b"-ERR unknown command 'set'\r\n".to_vec())
    );
    assert_eq!(
        send(&mut a, &mut db, 1, &["PING"]),
        (Next::Continue, b"-ERR unknown command 'ping'\r\n".to_vec())
    );
    assert_eq!(db.get("k"), None);
}

#[test]
fn get_without_key_is_answered_with_an_error_and_ends_the_connection() {
    let mut db = Db::new();
    let mut a = peer();
    let mut b = peer();
    send(&mut b, &mut db, 0, &["SET", "foo", "bar"]);
    assert_eq!(
        send(&mut a, &mut db, 1, &["GET"]),
        (
            Next::Fail("protocol error; unexpected end of stream".to_string()),
            b"-protocol error; unexpected end of stream\r\n".to_vec()
        )
    );
    assert_eq!(
        send(&mut b, &mut db, 2, &["GET", "foo"]),
        (Next::Continue, b"$3\r\nbar\r\n".to_vec())
    );
}

#[test]
fn frame_that_is_no_command_ends_the_connection() {
    let mut db = Db::new();
    let mut a = peer();
    let step = a
        .handler
        .on_event(Event::Frame(Frame::Integer(1)), &mut db, &mut a.conn, 0);
    assert_eq!(
        step.next,
        Next::Fail("protocol error; expected array, got Integer(1)".to_string())
    );
    assert_eq!(
        a.conn.take_output(),
        b"-protocol error; expected array, got Integer(1)\r\n"
    );
    let mut s = peer();
    send(&mut s, &mut db, 0, &["SUBSCRIBE", "a"]);
    let step = s
        .handler
        .on_event(Event::Frame(Frame::Null), &mut db, &mut s.conn, 0);
    assert_eq!(
        step.next,
        Next::Fail("protocol error; expected array, got Null".to_string())
    );
}

#[test]
fn unsubscribe_in_command_mode_ends_the_connection() {
    let mut db = Db::new();
    let mut a = peer();
    assert_eq!(
        send(&mut a, &mut db, 0, &["UNSUBSCRIBE"]),
        (
            Next::Fail("'Unsubscribe' is unsupported in this context".to_string()),
            b"-'Unsubscribe' is unsupported in this context\r\n".to_vec()
        )
    );
}

#[test]
fn unknown_command_keeps_the_connection() {
    let mut db = Db::new();
    let mut a = peer();
    assert_eq!(
        send(&mut a, &mut db, 0, &["Flush", "everything"]),
        (Next::Continue, b"-ERR unknown command 'flush'\r\n".to_vec())
    );
    assert_eq!(
        send(&mut a, &mut db, 0, &["SET", "k", "v"]),
        (Next::Continue, b"+OK\r\n".to_vec())
    );
}

#[test]
fn shutdown_and_eof_end_the_handler() {
    let mut db = Db::new();
    let mut a = peer();
    assert!(a.handler.running());
    let step = a.handler.on_event(Event::Eof, &mut db, &mut a.conn, 0);
    assert_eq!(step.next, Next::Return);
    assert!(a.handler.running());
    let step = a.handler.on_event(Event::Shutdown, &mut db, &mut a.conn, 0);
    assert_eq!(step.next, Next::Return);
    assert!(!a.handler.running());
    assert_eq!(a.conn.take_output(), b"");
    let mut s = peer();
    send(&mut s, &mut db, 0, &["SUBSCRIBE", "a"]);
    let step = s.handler.on_event(Event::Shutdown, &mut db, &mut s.conn, 0);
    assert_eq!(step.next, Next::Return);
    assert_eq!(s.conn.take_output(), b"");
    let mut t = peer();
    send(&mut t, &mut db, 0, &["SUBSCRIBE", "a"]);
    let step = t.handler.on_event(Event::Eof, &mut db, &mut t.conn, 0);
    assert_eq!(step.next, Next::Return);
}

#[test]
fn shutdown_flag() {
    let mut shutdown = Shutdown::new();
    assert!(!shutdown.is_shutdown());
    shutdown.recv();
    assert!(shutdown.is_shutdown());
    shutdown.recv();
    assert!(shutdown.is_shutdown());
}

#[test]
fn notice_frames() {
    assert_eq!(
        make_subscribe_frame("news".to_string(), 1),
        Frame::Array(vec![
            Frame::Bulk(Bytes::from_static(b"subscribe")),
            Frame::Bulk(Bytes::from_static(b"news")),
            Frame::Integer(1),
        ])
    );
    assert_eq!(
        make_unsubscribe_frame("news".to_string(), 0),
        Frame::Array(vec![
            Frame::Bulk(Bytes::from_static(b"unsubscribe")),
            Frame::Bulk(Bytes::from_static(b"news")),
            Frame::Integer(0),
        ])
    );
    assert_eq!(
        make_message_frame("news".to_string(), Bytes::from_static(b"\xffhi")),
        Frame::Array(vec![
            Frame::Bulk(Bytes::from_static(b"message")),
            Frame::Bulk(Bytes::from_static(b"news")),
            Frame::Bulk(Bytes::from_static(b"\xffhi")),
        ])
    );
}

#[test]
fn subscriptions_keep_each_channel_once() {
    let mut db = Db::new();
    let mut subs = Subscriptions::new();
    let mut conn = Connection::new();
    for name in ["a", "b", "c"] {
        subscribe_to_channel(name.to_string(), &mut subs, &mut db, &mut conn);
    }
    assert_eq!(keys(&subs), strings(&["a", "b", "c"]));
    conn.take_output();
    subscribe_to_channel("a".to_string(), &mut subs, &mut db, &mut conn);
    assert_eq!(keys(&subs), strings(&["c", "b", "a"]));
    assert_eq!(conn.take_output(), b"*3\r\n$9\r\nsubscribe\r\n$1\r\na\r\n:3\r\n");
    let mut pending: Vec<String> = Vec::new();
    assert_eq!(
        handle_command(command(&["UNSUBSCRIBE", "c"]), &mut pending, &mut subs, &mut conn),
        Ok(())
    );
    assert_eq!(keys(&subs), strings(&["a", "b"]));
    assert_eq!(
        handle_command(command(&["UNSUBSCRIBE", "c"]), &mut pending, &mut subs, &mut conn),
        Ok(())
    );
    assert_eq!(keys(&subs), strings(&["a", "b"]));
    assert_eq!(
        conn.take_output(),
        b"*3\r\n$11\r\nunsubscribe\r\n$1\r\nc\r\n:2\r\n*3\r\n$11\r\nunsubscribe\r\n$1\r\nc\r\n:2\r\n"
    );
}

#[test]
fn subscribe_to_channel_answers_with_the_count() {
    let mut db = Db::new();
    let mut subs = Subscriptions::new();
    let mut conn = Connection::new();
    subscribe_to_channel("news".to_string(), &mut subs, &mut db, &mut conn);
    assert_eq!(conn.take_output(), b"*3\r\n$9\r\nsubscribe\r\n$4\r\nnews\r\n:1\r\n");
    assert_eq!(keys(&subs), strings(&["news"]));
    assert_eq!(db.publish("news", Bytes::from_static(b"x")), 1);
    assert_eq!(
        next_message(&mut subs),
        Some(("news".to_string(), Bytes::from_static(b"x")))
    );
}

#[test]
fn handle_command_in_subscriber_mode() {
    let mut db = Db::new();
    let mut subs = Subscriptions::new();
    let mut conn = Connection::new();
    subscribe_to_channel("a".to_string(), &mut subs, &mut db, &mut conn);
    conn.take_output();
    let mut pending: Vec<String> = Vec::new();
    assert_eq!(
        handle_command(command(&["SUBSCRIBE", "b", "c"]), &mut pending, &mut subs, &mut conn),
        Ok(())
    );
    assert_eq!(pending, strings(&["b", "c"]));
    assert_eq!(keys(&subs), strings(&["a"]));
    assert_eq!(conn.take_output(), b"");
    assert_eq!(
        handle_command(command(&["UNSUBSCRIBE", "a"]), &mut pending, &mut subs, &mut conn),
        Ok(())
    );
    assert!(keys(&subs).is_empty());
    assert_eq!(conn.take_output(), b"*3\r\n$11\r\nunsubscribe\r\n$1\r\na\r\n:0\r\n");
    assert_eq!(
        handle_command(command(&["GET"]), &mut pending, &mut subs, &mut conn),
        Err("protocol error; unexpected end of stream".to_string())
    );
    assert_eq!(conn.take_output(), b"");
}

#[test]
fn connection_251_waits_for_a_permit() {
    let mut listener = Listener::new();
    for i in 0..MAX_CONNECTIONS {
        assert_eq!(listener.active(), i);
        assert_eq!(listener.run(ListenerEvent::Ready), ListenerAction::Accept);
        assert_eq!(listener.run(ListenerEvent::Accepted), ListenerAction::Spawn);
    }
    assert_eq!(listener.active(), 250);
    assert_eq!(listener.available, 0);
    assert_eq!(listener.run(ListenerEvent::Ready), ListenerAction::AwaitPermit);
    assert_eq!(listener.run(ListenerEvent::Ready), ListenerAction::AwaitPermit);
    assert_eq!(listener.run(ListenerEvent::Accepted), ListenerAction::Idle);
    assert_eq!(listener.active(), 250);
    assert_eq!(listener.run(ListenerEvent::HandlerDone), ListenerAction::Idle);
    assert_eq!(listener.active(), 249);
    assert_eq!(listener.run(ListenerEvent::Ready), ListenerAction::Accept);
    assert_eq!(listener.run(ListenerEvent::Accepted), ListenerAction::Spawn);
    assert_eq!(listener.active(), 250);
    assert_eq!(listener.backoff, 1);
}

#[test]
fn failed_accepts_back_off() {
    let mut listener = Listener::new();
    assert_eq!(listener.run(ListenerEvent::Ready), ListenerAction::Accept);
    for wait in [1u64, 2, 4, 8, 16, 32, 64] {
        assert_eq!(listener.run(ListenerEvent::AcceptFailed), ListenerAction::Retry(wait));
        assert!(wait <= MAX_BACKOFF);
    }
    assert_eq!(listener.run(ListenerEvent::AcceptFailed), ListenerAction::Exit);
    assert_eq!(listener.phase, Phase::Stopped);
}

#[test]
fn back_off_starts_again_for_each_connection() {
    let mut listener = Listener::new();
    assert_eq!(listener.run(ListenerEvent::Ready), ListenerAction::Accept);
    assert_eq!(listener.run(ListenerEvent::AcceptFailed), ListenerAction::Retry(1));
    assert_eq!(listener.run(ListenerEvent::AcceptFailed), ListenerAction::Retry(2));
    assert_eq!(listener.run(ListenerEvent::Accepted), ListenerAction::Spawn);
    assert_eq!(listener.run(ListenerEvent::Ready), ListenerAction::Accept);
    assert_eq!(listener.run(ListenerEvent::AcceptFailed), ListenerAction::Retry(1));
}

#[test]
fn final_accept_failure_drains_the_handlers() {
    let mut listener = Listener::new();
    listener.run(ListenerEvent::Ready);
    listener.run(ListenerEvent::Accepted);
    listener.run(ListenerEvent::Ready);
    for _ in 0..7 {
        listener.run(ListenerEvent::AcceptFailed);
    }
    assert_eq!(listener.run(ListenerEvent::AcceptFailed), ListenerAction::NotifyShutdown);
    assert_eq!(listener.phase, Phase::Draining);
    assert_eq!(listener.run(ListenerEvent::HandlerDone), ListenerAction::Exit);
    assert_eq!(listener.phase, Phase::Stopped);
}

#[test]
fn shutdown_waits_for_every_handler() {
    let mut listener = Listener::new();
    for _ in 0..3 {
        listener.run(ListenerEvent::Ready);
        listener.run(ListenerEvent::Accepted);
    }
    assert_eq!(listener.run(ListenerEvent::Shutdown), ListenerAction::NotifyShutdown);
    assert_eq!(listener.phase, Phase::Draining);
    assert_eq!(listener.run(ListenerEvent::Ready), ListenerAction::Idle);
    assert_eq!(listener.run(ListenerEvent::Accepted), ListenerAction::Idle);
    assert_eq!(listener.run(ListenerEvent::AcceptFailed), ListenerAction::Idle);
    assert_eq!(listener.run(ListenerEvent::Shutdown), ListenerAction::Idle);
    assert_eq!(listener.run(ListenerEvent::HandlerDone), ListenerAction::Idle);
    assert_eq!(listener.run(ListenerEvent::HandlerDone), ListenerAction::Idle);
    assert_eq!(listener.phase, Phase::Draining);
    assert_eq!(listener.run(ListenerEvent::HandlerDone), ListenerAction::Exit);
    assert_eq!(listener.phase, Phase::Stopped);
    assert_eq!(listener.run(ListenerEvent::HandlerDone), ListenerAction::Idle);
    assert_eq!(listener.active(), 0);
}

#[test]
fn shutdown_without_handlers_exits_at_once() {
    let mut listener = Listener::new();
    assert_eq!(listener.run(ListenerEvent::Shutdown), ListenerAction::Exit);
    assert_eq!(listener.phase, Phase::Stopped);
}
