use bytes::Bytes;
use mini_redis::client::{Client, Message, Subscriber};
use mini_redis::connection::Connection;
use mini_redis::frame::Frame;
use mini_redis::time::Duration;

fn list(words: &[&str]) -> Vec<String> {
    words.iter().map(|w| w.to_string()).collect()
}

fn notice(word: &str, channel: &str, count: u64) -> Frame {
    Frame::Array(vec![
        Frame::Bulk(Bytes::copy_from_slice(word.as_bytes())),
        Frame::Bulk(Bytes::copy_from_slice(channel.as_bytes())),
        Frame::Integer(count),
    ])
}

fn subscriber(channels: &[&str]) -> Subscriber {
    Client::new(Connection::new()).subscribe(list(channels))
}

#[test]
fn requests_on_the_wire() {
    let mut client = Client::new(Connection::new());
    client.get("foo");
    assert_eq!(client.connection().take_output(), b"*2\r\n$3\r\nget\r\n$3\r\nfoo\r\n");
    client.set("foo", Bytes::from_static(b"bar"));
    assert_eq!(
        client.connection().take_output(),
        b"*3\r\n$3\r\nset\r\n$3\r\nfoo\r\n$3\r\nbar\r\n"
    );
    client.set_expires("foo", Bytes::from_static(b"bar"), Duration::from_millis(500));
    assert_eq!(
        client.connection().take_output(),
        b"*5\r\n$3\r\nset\r\n$3\r\nfoo\r\n$3\r\nbar\r\n$2\r\npx\r\n:500\r\n"
    );
    client.publish("news", Bytes::from_static(b"hi"));
    assert_eq!(
        client.connection().take_output(),
        b"*3\r\n$7\r\npublish\r\n$4\r\nnews\r\n$2\r\nhi\r\n"
    );
    client.subscribe_cmd(&list(&["a", "b"]));
    assert_eq!(
        client.connection().take_output(),
        b"*3\r\n$9\r\nsubscribe\r\n$1\r\na\r\n$1\r\nb\r\n"
    );
}

#[test]
fn responses_in_general() {
    assert_eq!(Client::read_response(Some(Frame::Null)), Ok(Frame::Null));
    assert_eq!(
        Client::read_response(Some(Frame::Error("ERR no".to_string()))),
        Err("ERR no".to_string())
    );
    assert_eq!(
        Client::read_response(None),
        Err("connection reset by server".to_string())
    );
}

#[test]
fn get_responses() {
    assert_eq!(
        Client::get_response(Some(Frame::Bulk(Bytes::from_static(b"bar")))),
        Ok(Some(Bytes::from_static(b"bar")))
    );
    assert_eq!(
        Client::get_response(Some(Frame::Simple("bar".to_string()))),
        Ok(Some(Bytes::from_static(b"bar")))
    );
    assert_eq!(Client::get_response(Some(Frame::Null)), Ok(None));
    assert_eq!(
        Client::get_response(Some(Frame::Integer(1))),
        Err("unexpected frame: 1".to_string())
    );
    assert_eq!(
        Client::get_response(Some(Frame::Error("bad".to_string()))),
        Err("bad".to_string())
    );
    assert_eq!(
        Client::get_response(None),
        Err("connection reset by server".to_string())
    );
}

#[test]
fn set_responses() {
    assert_eq!(Client::set_response(Some(Frame::Simple("OK".to_string()))), Ok(()));
    assert_eq!(
        Client::set_response(Some(Frame::Simple("ok".to_string()))),
        Err("unexpected frame: ok".to_string())
    );
    assert_eq!(
        Client::set_response(Some(Frame::Bulk(Bytes::from_static(b"OK")))),
        Err("unexpected frame: OK".to_string())
    );
    assert_eq!(
        Client::set_response(None),
        Err("connection reset by server".to_string())
    );
}

#[test]
fn publish_responses() {
    assert_eq!(Client::publish_response(Some(Frame::Integer(3))), Ok(3));
    assert_eq!(
        Client::publish_response(Some(Frame::Null)),
        Err("unexpected frame: (nil)".to_string())
    );
}

#[test]
fn subscribe_responses() {
    assert_eq!(
        Client::subscribe_response(Some(notice("subscribe", "news", 1)), "news"),
        Ok(())
    );
    assert_eq!(
        Client::subscribe_response(
            Some(Frame::Array(vec![
                Frame::Simple("subscribe".to_string()),
                Frame::Simple("news".to_string()),
            ])),
            "news"
        ),
        Ok(())
    );
    assert_eq!(
        Client::subscribe_response(Some(notice("subscribe", "other", 1)), "news"),
        Err("unexpected frame:  other 1".to_string())
    );
    assert_eq!(
        Client::subscribe_response(Some(notice("unsubscribe", "news", 1)), "news"),
        Err("unexpected frame:  news 1".to_string())
    );
    assert_eq!(
        Client::subscribe_response(
            Some(Frame::Array(vec![Frame::Simple("subscribe".to_string())])),
            "news"
        ),
        Err("unexpected frame: ".to_string())
    );
    assert_eq!(
        Client::subscribe_response(Some(Frame::Null), "news"),
        Err("unexpected frame: (nil)".to_string())
    );
}

#[test]
fn subscriber_knows_its_channels() {
    let mut sub = subscriber(&["a", "b"]);
    assert_eq!(sub.get_subscribed(), &list(&["a", "b"])[..]);
    sub.subscribe_cmd(&list(&["c"]));
    assert_eq!(
        sub.connection().take_output(),
        b"*2\r\n$9\r\nsubscribe\r\n$1\r\nc\r\n"
    );
    assert_eq!(sub.get_subscribed(), &list(&["a", "b"])[..]);
    sub.subscribe(&list(&["c"]));
    assert_eq!(sub.get_subscribed(), &list(&["a", "b", "c"])[..]);
}

#[test]
fn next_messages() {
    let frame = Frame::Array(vec![
        Frame::Bulk(Bytes::from_static(b"message")),
        Frame::Bulk(Bytes::from_static(b"news")),
        Frame::Bulk(Bytes::from_static(b"hi")),
    ]);
    assert_eq!(
        Subscriber::next_message(Some(frame)),
        Ok(Some(Message { channel: "news".to_string(), content: Bytes::from_static(b"hi") }))
    );
    assert_eq!(Subscriber::next_message(None), Ok(None));
    assert_eq!(
        Subscriber::next_message(Some(notice("subscribe", "news", 1))),
        Err("unexpected frame:  news 1".to_string())
    );
    assert_eq!(
        Subscriber::next_message(Some(Frame::Array(vec![
            Frame::Bulk(Bytes::from_static(b"message")),
            Frame::Bulk(Bytes::from_static(b"news")),
        ]))),
        Err("unexpected frame:  news".to_string())
    );
    assert_eq!(
        Subscriber::next_message(Some(Frame::Simple("message".to_string()))),
        Err("unexpected frame: message".to_string())
    );
    let numbers = Frame::Array(vec![
        Frame::Simple("message".to_string()),
        Frame::Integer(7),
        Frame::Null,
    ]);
    assert_eq!(
        Subscriber::next_message(Some(numbers)),
        Ok(Some(Message { channel: "7".to_string(), content: Bytes::from_static(b"(nil)") }))
    );
}

#[test]
fn unsubscribe_requests_and_answers() {
    let mut sub = subscriber(&["a", "b", "c"]);
    assert_eq!(sub.unsubscribe(&list(&["a"])), 1);
    assert_eq!(
        sub.connection().take_output(),
        b"*2\r\n$11\r\nunsubscribe\r\n$1\r\na\r\n"
    );
    assert_eq!(sub.unsubscribe_response(Some(notice("unsubscribe", "a", 2))), Ok(()));
    assert_eq!(sub.get_subscribed(), &list(&["b", "c"])[..]);
    assert_eq!(sub.unsubscribe(&[]), 2);
    assert_eq!(sub.connection().take_output(), b"*1\r\n$11\r\nunsubscribe\r\n");
    assert_eq!(sub.unsubscribe_response(Some(notice("unsubscribe", "c", 1))), Ok(()));
    assert_eq!(sub.unsubscribe_response(Some(notice("unsubscribe", "b", 0))), Ok(()));
    assert!(sub.get_subscribed().is_empty());
    assert_eq!(sub.unsubscribe(&[]), 0);
}

#[test]
fn unsubscribe_answers_that_do_not_fit() {
    let mut sub = subscriber(&["a", "b"]);
    assert_eq!(
        sub.unsubscribe_response(Some(notice("unsubscribe", "x", 2))),
        Err("unexpected frame:  x 2".to_string())
    );
    assert_eq!(sub.get_subscribed(), &list(&["a", "b"])[..]);
    assert_eq!(
        sub.unsubscribe_response(Some(notice("subscribe", "a", 2))),
        Err("unexpected frame:  a 2".to_string())
    );
    assert_eq!(
        sub.unsubscribe_response(Some(Frame::Error("gone".to_string()))),
        Err("gone".to_string())
    );
    assert_eq!(
        sub.unsubscribe_response(None),
        Err("connection reset by server".to_string())
    );
    assert_eq!(sub.get_subscribed(), &list(&["a", "b"])[..]);
    let mut twice = subscriber(&["a", "a", "b"]);
    assert_eq!(
        twice.unsubscribe_response(Some(notice("unsubscribe", "a", 1))),
        Err("unexpected frame:  a 1".to_string())
    );
    assert_eq!(twice.get_subscribed(), &list(&["b"])[..]);
    let mut none = subscriber(&[]);
    assert_eq!(
        none.unsubscribe_response(Some(notice("unsubscribe", "a", 0))),
        Err("unexpected frame:  a 0".to_string())
    );
}
