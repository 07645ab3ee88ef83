use bytes::Bytes;
use mini_redis::cmd::{Command, Get, Publish, SetCmd, Subscribe, Unknown, Unsubscribe};
use mini_redis::frame::Frame;
use mini_redis::parse::{Parse, ParseError};
use mini_redis::time::Duration;

fn bulk(text: &str) -> Frame {
    Frame::Bulk(Bytes::copy_from_slice(text.as_bytes()))
}

fn request(words: &[&str]) -> Frame {
    Frame::Array(words.iter().map(|w| bulk(w)).collect())
}

fn names(words: &[&str]) -> Vec<String> {
    words.iter().map(|w| w.to_string()).collect()
}

fn other(text: &str) -> ParseError {
    ParseError::Other(text.to_string())
}

#[test]
fn parse_needs_an_array() {
    match Parse::new(Frame::Simple("x".to_string())) {
        Err(e) => assert_eq!(e, other("protocol error; expected array, got Simple(\"x\")")),
        Ok(_) => panic!("a simple frame is no command"),
    }
    match Parse::new(Frame::Bulk(Bytes::from_static(b"a\n"))) {
        Err(e) => assert_eq!(e, other("protocol error; expected array, got Bulk(b\"a\\n\")")),
        Ok(_) => panic!("a bulk frame is no command"),
    }
    assert!(Parse::new(Frame::Array(vec![])).is_ok());
}

#[test]
fn parse_entries_in_order() {
    let frame = Frame::Array(vec![
        Frame::Simple("one".to_string()),
        bulk("two"),
        Frame::Integer(3),
        bulk("44"),
        Frame::Simple("5x".to_string()),
    ]);
    let mut parse = Parse::new(frame).unwrap();
    assert_eq!(parse.next_string(), Ok("one".to_string()));
    assert_eq!(parse.next_bytes(), Ok(Bytes::from_static(b"two")));
    assert_eq!(parse.next_int(), Ok(3));
    assert_eq!(parse.next_int(), Ok(44));
    assert_eq!(parse.next_int(), Ok(5));
    assert_eq!(parse.next_string(), Err(ParseError::EndOfStream));
    assert_eq!(parse.next_bytes(), Err(ParseError::EndOfStream));
    assert_eq!(parse.next_int(), Err(ParseError::EndOfStream));
    assert_eq!(parse.finish(), Ok(()));
}

#[test]
fn parse_entry_errors() {
    let frame = Frame::Array(vec![
        Frame::Integer(3),
        Frame::Null,
        Frame::Null,
        Frame::Bulk(Bytes::from_static(b"\xff")),
        bulk("abc"),
        Frame::Simple("text".to_string()),
        Frame::Integer(1),
        Frame::Integer(2),
    ]);
    let mut parse = Parse::new(frame).unwrap();
    assert_eq!(
        parse.next_string(),
        Err(other("protocol error; expected simple frame or bulk frame, got Integer(3)"))
    );
    assert_eq!(
        parse.next_bytes(),
        Err(other("protocol error; expected simple frame or bulk frame, got Null"))
    );
    assert_eq!(
        parse.next_int(),
        Err(other("protocol error; expected int frame but got Null"))
    );
    assert_eq!(parse.next_string(), Err(other("protocol error; invalid string")));
    assert_eq!(parse.next_int(), Err(other("protocol error; invalid number")));
    assert_eq!(parse.next_bytes(), Ok(Bytes::from_static(b"text")));
    assert_eq!(
        parse.finish(),
        Err(other("protocol error; expected end of frame, but there was more"))
    );
    assert_eq!(parse.next_int(), Ok(2));
    assert_eq!(parse.finish(), Ok(()));
}

#[test]
fn parse_error_texts() {
    assert_eq!(
        ParseError::EndOfStream.into_text(),
        "protocol error; unexpected end of stream"
    );
    assert_eq!(other("x").into_text(), "x");
}

#[test]
fn get_from_frame() {
    assert_eq!(
        Command::from_frame(request(&["GET", "foo"])),
        Ok(Command::Get(Get::new("foo")))
    );
    assert_eq!(
        Command::from_frame(request(&["get", "foo"])),
        Ok(Command::Get(Get::new("foo")))
    );
    assert_eq!(
        Command::from_frame(request(&["gEt", "foo"])),
        Ok(Command::Get(Get::new("foo")))
    );
    assert_eq!(
        Command::from_frame(Frame::Array(vec![
            Frame::Simple("GET".to_string()),
            Frame::Simple("k".to_string()),
        ])),
        Ok(Command::Get(Get::new("k")))
    );
    assert_eq!(Get::new("foo").key(), "foo");
}

#[test]
fn get_without_key_is_an_error() {
    assert_eq!(
        Command::from_frame(request(&["GET"])),
        Err("protocol error; unexpected end of stream".to_string())
    );
}

#[test]
fn extra_entries_are_an_error() {
    assert_eq!(
        Command::from_frame(request(&["GET", "a", "b"])),
        Err("protocol error; expected end of frame, but there was more".to_string())
    );
    assert_eq!(
        Command::from_frame(request(&["PUBLISH", "a", "b", "c"])),
        Err("protocol error; expected end of frame, but there was more".to_string())
    );
    assert_eq!(
        Command::from_frame(request(&["SET", "a", "b", "PX", "1", "more"])),
        Err("protocol error; expected end of frame, but there was more".to_string())
    );
}

#[test]
fn from_frame_needs_an_array_with_a_name() {
    assert_eq!(
        Command::from_frame(Frame::Null),
        Err("protocol error; expected array, got Null".to_string())
    );
    assert_eq!(
        Command::from_frame(Frame::Array(vec![])),
        Err("protocol error; unexpected end of stream".to_string())
    );
    assert_eq!(
        Command::from_frame(Frame::Array(vec![Frame::Integer(1)])),
        Err("protocol error; expected simple frame or bulk frame, got Integer(1)".to_string())
    );
}

#[test]
fn set_from_frame() {
    assert_eq!(
        Command::from_frame(request(&["SET", "foo", "bar"])),
        Ok(Command::SetCmd(SetCmd::new("foo", Bytes::from_static(b"bar"), None)))
    );
    assert_eq!(
        Command::from_frame(request(&["set", "foo", "bar", "EX", "10"])),
        Ok(Command::SetCmd(SetCmd::new(
            "foo",
            Bytes::from_static(b"bar"),
            Some(Duration::from_secs(10))
        )))
    );
    assert_eq!(
        Command::from_frame(request(&["set", "foo", "bar", "px", "50"])),
        Ok(Command::SetCmd(SetCmd::new(
            "foo",
            Bytes::from_static(b"bar"),
            Some(Duration::from_millis(50))
        )))
    );
    assert_eq!(
        Command::from_frame(Frame::Array(vec![
            bulk("SET"),
            bulk("k"),
            Frame::Bulk(Bytes::from_static(b"\xff")),
            bulk("Px"),
            Frame::Integer(0),
        ])),
        Ok(Command::SetCmd(SetCmd::new(
            "k",
            Bytes::from_static(b"\xff"),
            Some(Duration::from_millis(0))
        )))
    );
}

#[test]
fn set_accessors() {
    let set = SetCmd::new("k", Bytes::from_static(b"v"), Some(Duration::from_secs(2)));
    assert_eq!(set.key(), "k");
    assert_eq!(set.value(), &Bytes::from_static(b"v"));
    assert_eq!(set.expire(), Some(Duration { nanos: 2_000_000_000 }));
    assert_eq!(set.expire(), Some(Duration::from_millis(2000)));
}

#[test]
fn set_errors() {
    assert_eq!(
        Command::from_frame(request(&["SET", "foo"])),
        Err("protocol error; unexpected end of stream".to_string())
    );
    assert_eq!(
        Command::from_frame(request(&["SET", "foo", "bar", "NX"])),
        Err("currently 'SET' only supports the expiration option".to_string())
    );
    assert_eq!(
        Command::from_frame(request(&["SET", "foo", "bar", "EX"])),
        Err("protocol error; unexpected end of stream".to_string())
    );
    assert_eq!(
        Command::from_frame(request(&["SET", "foo", "bar", "PX", "soon"])),
        Err("protocol error; invalid number".to_string())
    );
    assert_eq!(
        Command::from_frame(Frame::Array(vec![
            bulk("SET"),
            bulk("foo"),
            bulk("bar"),
            Frame::Integer(5),
        ])),
        Err("protocol error; expected simple frame or bulk frame, got Integer(5)".to_string())
    );
}

#[test]
fn publish_from_frame() {
    assert_eq!(
        Command::from_frame(request(&["PUBLISH", "news", "hi"])),
        Ok(Command::Publish(Publish::new("news", Bytes::from_static(b"hi"))))
    );
    assert_eq!(
        Command::from_frame(request(&["PUBLISH", "news"])),
        Err("protocol error; unexpected end of stream".to_string())
    );
}

#[test]
fn subscribe_from_frame() {
    assert_eq!(
        Command::from_frame(request(&["SUBSCRIBE", "a"])),
        Ok(Command::Subscribe(Subscribe::new(&names(&["a"]))))
    );
    assert_eq!(
        Command::from_frame(request(&["subscribe", "a", "b", "c"])),
        Ok(Command::Subscribe(Subscribe::new(&names(&["a", "b", "c"]))))
    );
    assert_eq!(
        Command::from_frame(request(&["SUBSCRIBE"])),
        Err("protocol error; unexpected end of stream".to_string())
    );
    assert_eq!(
        Command::from_frame(Frame::Array(vec![bulk("SUBSCRIBE"), bulk("a"), Frame::Null])),
        Err("protocol error; expected simple frame or bulk frame, got Null".to_string())
    );
    assert_eq!(
        Subscribe::new(&names(&["x", "y"])).into_channels(),
        names(&["x", "y"])
    );
}

#[test]
fn unsubscribe_from_frame() {
    assert_eq!(
        Command::from_frame(request(&["UNSUBSCRIBE"])),
        Ok(Command::Unsubscribe(Unsubscribe::new(&[])))
    );
    assert_eq!(
        Command::from_frame(request(&["unsubscribe", "a", "b"])),
        Ok(Command::Unsubscribe(Unsubscribe::new(&names(&["a", "b"]))))
    );
    assert_eq!(
        Command::from_frame(Frame::Array(vec![bulk("UNSUBSCRIBE"), Frame::Integer(1)])),
        Err("protocol error; expected simple frame or bulk frame, got Integer(1)".to_string())
    );
    assert_eq!(
        Unsubscribe::new(&names(&["x"])).into_channels(),
        names(&["x"])
    );
}

#[test]
fn unknown_from_frame() {
    assert_eq!(
        Command::from_frame(request(&["PING"])),
        Ok(Command::Unknown(Unknown::new("ping")))
    );
    assert_eq!(
        Command::from_frame(Frame::Array(vec![bulk("Del"), Frame::Null, Frame::Integer(1)])),
        Ok(Command::Unknown(Unknown::new("del")))
    );
    assert_eq!(Unknown::new("ping").get_name(), "ping");
}

#[test]
fn command_names() {
    assert_eq!(Command::Get(Get::new("k")).get_name(), "get");
    assert_eq!(
        Command::Publish(Publish::new("c", Bytes::new())).get_name(),
        "pub"
    );
    assert_eq!(
        Command::SetCmd(SetCmd::new("k", Bytes::new(), None)).get_name(),
        "set"
    );
    assert_eq!(Command::Subscribe(Subscribe::new(&[])).get_name(), "subscribe");
    assert_eq!(
        Command::Unsubscribe(Unsubscribe::new(&[])).get_name(),
        "unsubscribe"
    );
    assert_eq!(Command::Unknown(Unknown::new("ping")).get_name(), "ping");
}

#[test]
fn commands_as_frames() {
    assert_eq!(Get::new("foo").into_frame(), request(&["get", "foo"]));
    assert_eq!(
        Publish::new("news", Bytes::from_static(b"hi")).into_frame(),
        request(&["publish", "news", "hi"])
    );
    assert_eq!(
        SetCmd::new("foo", Bytes::from_static(b"bar"), None).into_frame(),
        request(&["set", "foo", "bar"])
    );
    assert_eq!(
        SetCmd::new("foo", Bytes::from_static(b"bar"), Some(Duration::from_secs(2))).into_frame(),
        Frame::Array(vec![
            bulk("set"),
            bulk("foo"),
            bulk("bar"),
            bulk("px"),
            Frame::Integer(2000),
        ])
    );
    assert_eq!(
        Subscribe::new(&names(&["a", "b"])).into_frame(),
        request(&["subscribe", "a", "b"])
    );
    assert_eq!(
        Unsubscribe::new(&[]).into_frame(),
        request(&["unsubscribe"])
    );
    assert_eq!(
        Unsubscribe::new(&names(&["a"])).into_frame(),
        request(&["unsubscribe", "a"])
    );
}

#[test]
fn from_frame_of_into_frame_is_the_command() {
    let get = Get::new("h\u{e9}");
    assert_eq!(
        Command::from_frame(Get::new("h\u{e9}").into_frame()),
        Ok(Command::Get(get))
    );
    assert_eq!(
        Command::from_frame(Publish::new("c", Bytes::from_static(b"\xff\r\n")).into_frame()),
        Ok(Command::Publish(Publish::new("c", Bytes::from_static(b"\xff\r\n"))))
    );
    assert_eq!(
        Command::from_frame(SetCmd::new("k", Bytes::from_static(b"v"), None).into_frame()),
        Ok(Command::SetCmd(SetCmd::new("k", Bytes::from_static(b"v"), None)))
    );
    let ttl = Some(Duration::from_millis(1500));
    assert_eq!(
        Command::from_frame(SetCmd::new("k", Bytes::from_static(b"v"), ttl).into_frame()),
        Ok(Command::SetCmd(SetCmd::new("k", Bytes::from_static(b"v"), ttl)))
    );
    assert_eq!(
        Command::from_frame(Subscribe::new(&names(&["a", "b"])).into_frame()),
        Ok(Command::Subscribe(Subscribe::new(&names(&["a", "b"]))))
    );
    assert_eq!(
        Command::from_frame(Unsubscribe::new(&[]).into_frame()),
        Ok(Command::Unsubscribe(Unsubscribe::new(&[])))
    );
}

#[test]
fn a_time_to_live_goes_out_as_whole_milliseconds() {
    let ttl = Some(Duration::from_nanos(1_999_999));
    assert_eq!(
        Command::from_frame(SetCmd::new("k", Bytes::from_static(b"v"), ttl).into_frame()),
        Ok(Command::SetCmd(SetCmd::new(
            "k",
            Bytes::from_static(b"v"),
            Some(Duration::from_millis(1))
        )))
    );
    let huge = Some(Duration::from_nanos(18_446_744_073_709_551_616 * 1_000_000 + 3_000_000));
    assert_eq!(
        SetCmd::new("k", Bytes::new(), huge).into_frame(),
        Frame::Array(vec![
            bulk("set"),
            bulk("k"),
            bulk(""),
            bulk("px"),
            Frame::Integer(3),
        ])
    );
}

#[test]
fn a_subscribe_without_channels_is_not_read_back() {
    assert_eq!(
        Command::from_frame(Subscribe::new(&[]).into_frame()),
        Err("protocol error; unexpected end of stream".to_string())
    );
}

#[test]
fn durations() {
    assert_eq!(Duration::from_secs(1).as_nanos(), 1_000_000_000);
    assert_eq!(Duration::from_millis(1).as_nanos(), 1_000_000);
    assert_eq!(Duration::from_millis(1500).as_millis(), 1500);
    assert_eq!(Duration::from_nanos(1_999_999).as_millis(), 1);
    assert_eq!(
        Duration::from_secs(u64::MAX).as_nanos(),
        18_446_744_073_709_551_615_000_000_000
    );
    assert_eq!(Duration::from_secs(3), Duration::from_millis(3000));
}
