use irc_proto::command::Command::{PRIVMSG, QUIT, Raw};
use irc_proto::message::{OwnedMessage, Tag};

#[test]
fn new() {
    let message = OwnedMessage {
        tags: None,
        prefix: None,
        command: PRIVMSG(format!("test"), format!("Testing!")),
    };
    assert_eq!(
        OwnedMessage::new(None, "PRIVMSG", vec!["test"], Some("Testing!")).unwrap(),
        message
    )
}

#[test]
fn source_nickname() {
    assert_eq!(
        OwnedMessage::new(None, "PING", vec![], Some("data"))
            .unwrap()
            .source_nickname(),
        None
    );

    assert_eq!(
        OwnedMessage::new(Some("irc.test.net"), "PING", vec![], Some("data"))
            .unwrap()
            .source_nickname(),
        None
    );

    assert_eq!(
        OwnedMessage::new(Some("test!test@test"), "PING", vec![], Some("data"))
            .unwrap()
            .source_nickname(),
        Some("test")
    );

    assert_eq!(
        OwnedMessage::new(Some("test@test"), "PING", vec![], Some("data"))
            .unwrap()
            .source_nickname(),
        Some("test")
    );

    assert_eq!(
        OwnedMessage::new(Some("test!test@irc.test.com"), "PING", vec![], Some("data"))
            .unwrap()
            .source_nickname(),
        Some("test")
    );

    assert_eq!(
        OwnedMessage::new(Some("test!test@127.0.0.1"), "PING", vec![], Some("data"))
            .unwrap()
            .source_nickname(),
        Some("test")
    );

    assert_eq!(
        OwnedMessage::new(Some("test@test.com"), "PING", vec![], Some("data"))
            .unwrap()
            .source_nickname(),
        Some("test")
    );

    assert_eq!(
        OwnedMessage::new(Some("test"), "PING", vec![], Some("data"))
            .unwrap()
            .source_nickname(),
        Some("test")
    );
}

#[test]
fn to_string() {
    let message = OwnedMessage {
        tags: None,
        prefix: None,
        command: PRIVMSG(format!("test"), format!("Testing!")),
    };
    assert_eq!(&message.to_string()[..], "PRIVMSG test :Testing!\r\n");
    let message = OwnedMessage {
        tags: None,
        prefix: Some(format!("test!test@test")),
        command: PRIVMSG(format!("test"), format!("Still testing!")),
    };
    assert_eq!(
        &message.to_string()[..],
        ":test!test@test PRIVMSG test :Still testing!\r\n"
    );
}

#[test]
fn from_string() {
    let message = OwnedMessage {
        tags: None,
        prefix: None,
        command: PRIVMSG(format!("test"), format!("Testing!")),
    };
    assert_eq!(
        "PRIVMSG test :Testing!\r\n".parse::<OwnedMessage>().unwrap(),
        message
    );
    let message = OwnedMessage {
        tags: None,
        prefix: Some(format!("test!test@test")),
        command: PRIVMSG(format!("test"), format!("Still testing!")),
    };
    assert_eq!(
        ":test!test@test PRIVMSG test :Still testing!\r\n"
            .parse::<OwnedMessage>()
            .unwrap(),
        message
    );
    let message = OwnedMessage {
        tags: Some(vec![
            Tag(format!("aaa"), Some(format!("bbb"))),
            Tag(format!("ccc"), None),
            Tag(format!("example.com/ddd"), Some(format!("eee"))),
        ]),
        prefix: Some(format!("test!test@test")),
        command: PRIVMSG(format!("test"), format!("Testing with tags!")),
    };
    assert_eq!(
        "@aaa=bbb;ccc;example.com/ddd=eee :test!test@test PRIVMSG test :Testing with \
                tags!\r\n"
            .parse::<OwnedMessage>()
            .unwrap(),
        message
    )
}

#[test]
fn from_string_atypical_endings() {
    let message = OwnedMessage {
        tags: None,
        prefix: None,
        command: PRIVMSG(format!("test"), format!("Testing!")),
    };
    assert_eq!(
        "PRIVMSG test :Testing!\r".parse::<OwnedMessage>().unwrap(),
        message
    );
    assert_eq!(
        "PRIVMSG test :Testing!\n".parse::<OwnedMessage>().unwrap(),
        message
    );
    assert_eq!(
        "PRIVMSG test :Testing!".parse::<OwnedMessage>().unwrap(),
        message
    );
}

#[test]
fn from_and_to_string() {
    let message = "@aaa=bbb;ccc;example.com/ddd=eee :test!test@test PRIVMSG test :Testing with \
                   tags!\r\n";
    assert_eq!(message.parse::<OwnedMessage>().unwrap().to_string(), message);
}

#[test]
fn to_message() {
    let message = OwnedMessage {
        tags: None,
        prefix: None,
        command: PRIVMSG(format!("test"), format!("Testing!")),
    };
    let msg: OwnedMessage = "PRIVMSG test :Testing!\r\n".parse().unwrap();
    assert_eq!(msg, message);
    let message = OwnedMessage {
        tags: None,
        prefix: Some(format!("test!test@test")),
        command: PRIVMSG(format!("test"), format!("Still testing!")),
    };
    let msg: OwnedMessage = ":test!test@test PRIVMSG test :Still testing!\r\n".parse().unwrap();
    assert_eq!(msg, message);
}

#[test]
fn to_message_with_colon_in_arg() {
    // Some servers send parameters that hold a colon; it must stay part of the parameter.
    let message = OwnedMessage {
        tags: None,
        prefix: Some(format!("test!test@test")),
        command: Raw(
            format!("COMMAND"),
            vec![format!("ARG:test")],
            Some(format!("Testing!")),
        ),
    };
    let msg: OwnedMessage = ":test!test@test COMMAND ARG:test :Testing!\r\n".parse().unwrap();
    assert_eq!(msg, message);
}

#[test]
fn to_message_no_prefix_no_args() {
    let message = OwnedMessage {
        tags: None,
        prefix: None,
        command: QUIT(None),
    };
    let msg: OwnedMessage = "QUIT\r\n".parse().unwrap();
    assert_eq!(msg, message);
}

#[test]
#[should_panic]
fn to_message_invalid_format() {
    let _: OwnedMessage = ":invalid :message".parse().unwrap();
}
