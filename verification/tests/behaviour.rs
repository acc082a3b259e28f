use irc_proto::chan::is_channel_name;
use irc_proto::command::Command;
use irc_proto::error::{MessageParseError, ProtocolError};
use irc_proto::message::{OwnedMessage, Tag};

fn parse(s: &str) -> OwnedMessage {
    s.parse::<OwnedMessage>().unwrap()
}

#[test]
fn print_then_read_gives_the_message() {
    let message = OwnedMessage {
        tags: Some(vec![
            Tag(format!("a"), Some(format!("b=c"))),
            Tag(format!("k"), None),
            Tag(format!(""), Some(format!("v"))),
        ]),
        prefix: Some(format!("nick!user@host")),
        command: Command::Raw(
            format!("CMD"),
            vec![format!("x"), format!("y:z")],
            Some(format!("hello :world")),
        ),
    };
    let line = message.to_string();
    assert_eq!(line, "@a=b=c;k;=v :nick!user@host CMD x y:z :hello :world\r\n");
    assert_eq!(parse(&line), message);
}

#[test]
fn print_then_read_named_commands() {
    for command in vec![
        Command::PRIVMSG(format!("#chan"), format!("")),
        Command::NOTICE(format!("bob"), format!("a b")),
        Command::QUIT(None),
        Command::QUIT(Some(format!("bye"))),
    ] {
        let message = OwnedMessage { tags: None, prefix: None, command };
        assert_eq!(parse(&message.to_string()), message);
    }
}

#[test]
fn read_then_print_gives_the_line() {
    let line = "@a=1 :srv NOTICE #c :hi there\r\n";
    assert_eq!(parse(line).to_string(), line);
}

#[test]
fn commands_are_recognised_without_regard_to_case() {
    let msg = parse("privmsg a :b");
    assert_eq!(msg.command, Command::PRIVMSG(format!("a"), format!("b")));
    assert_eq!(msg.to_string(), "PRIVMSG a :b\r\n");
    assert_eq!(
        Command::new("NoTiCe", vec!["#c"], Some("x")).unwrap(),
        Command::NOTICE(format!("#c"), format!("x"))
    );
}

#[test]
fn commands_of_the_wrong_shape_stay_raw() {
    assert_eq!(
        Command::new("PRIVMSG", vec!["a", "b"], Some("x")).unwrap(),
        Command::Raw(format!("PRIVMSG"), vec![format!("a"), format!("b")], Some(format!("x")))
    );
    assert_eq!(
        Command::new("PRIVMSG", vec!["a"], None).unwrap(),
        Command::Raw(format!("PRIVMSG"), vec![format!("a")], None)
    );
    assert_eq!(
        Command::new("QUIT", vec!["a"], None).unwrap(),
        Command::Raw(format!("QUIT"), vec![format!("a")], None)
    );
    assert_eq!(Command::new("quit", vec![], Some("bye")).unwrap(), Command::QUIT(Some(format!("bye"))));
}

#[test]
fn command_strings() {
    assert_eq!(Command::QUIT(Some(format!("bye"))).to_string(), "QUIT :bye");
    assert_eq!(Command::QUIT(None).to_string(), "QUIT");
    assert_eq!(
        Command::PRIVMSG(format!("t"), format!("m")).to_string(),
        "PRIVMSG t :m"
    );
    assert_eq!(
        Command::Raw(format!("CMD"), vec![format!(""), format!("")], None).to_string(),
        "CMD  "
    );
    assert_eq!(
        Command::Raw(format!("CMD"), vec![format!("")], Some(format!("s"))).to_string(),
        "CMD :s"
    );
}

#[test]
fn empty_line_is_refused() {
    assert_eq!(
        "".parse::<OwnedMessage>(),
        Err(ProtocolError::InvalidMessage {
            string: format!(""),
            cause: MessageParseError::EmptyMessage,
        })
    );
}

#[test]
fn line_without_command_is_refused() {
    assert_eq!(
        OwnedMessage::parse(":invalid :message"),
        Err(ProtocolError::InvalidMessage {
            string: format!(":invalid :message"),
            cause: MessageParseError::InvalidCommand,
        })
    );
}

#[test]
fn at_most_fourteen_argument_pieces() {
    let msg = parse("CMD 1 2 3 4 5 6 7 8 9 10 11 12 13 14 15");
    let mut args: Vec<String> = (1..14).map(|i| format!("{}", i)).collect();
    args.push(format!("14 15"));
    assert_eq!(msg.command, Command::Raw(format!("CMD"), args, None));
}

#[test]
fn empty_arguments_are_dropped() {
    let msg = parse("CMD  a   b ");
    assert_eq!(
        msg.command,
        Command::Raw(format!("CMD"), vec![format!("a"), format!("b")], None)
    );
}

#[test]
fn empty_tag_list_prints_as_a_space() {
    let message = OwnedMessage { tags: Some(vec![]), prefix: None, command: Command::QUIT(None) };
    assert_eq!(message.to_string(), " QUIT\r\n");
}

#[test]
fn empty_tag_pieces_are_dropped() {
    let msg = parse("@a;;b=;c PING\r\n");
    assert_eq!(
        msg.tags,
        Some(vec![
            Tag(format!("a"), None),
            Tag(format!("b"), Some(format!(""))),
            Tag(format!("c"), None),
        ])
    );
    assert_eq!(msg.command, Command::Raw(format!("PING"), vec![], None));
}

#[test]
fn sections_without_a_space() {
    let msg = parse(":onlyprefix");
    assert_eq!(msg.prefix, None);
    assert_eq!(msg.command, Command::Raw(format!(""), vec![], None));
    let msg = parse("@abc");
    assert_eq!(msg.tags, None);
    assert_eq!(msg.command, Command::Raw(format!(""), vec![], None));
}

#[test]
fn suffix_follows_the_first_space_colon() {
    let msg = parse("PRIVMSG a :b :c\n");
    assert_eq!(msg.command, Command::PRIVMSG(format!("a"), format!("b :c")));
    let msg = parse("QUIT :\r\n");
    assert_eq!(msg.command, Command::QUIT(Some(format!(""))));
}

#[test]
fn response_targets() {
    let m = OwnedMessage::new(Some("ada"), "PRIVMSG", vec!["#channel"], Some("Hi")).unwrap();
    assert_eq!(m.response_target(), Some("#channel"));
    let m = OwnedMessage::new(Some("ada"), "NOTICE", vec!["&local"], Some("Hi")).unwrap();
    assert_eq!(m.response_target(), Some("&local"));
    let m = OwnedMessage::new(Some("ada"), "PRIVMSG", vec!["betsy"], Some("betsy: hi")).unwrap();
    assert_eq!(m.response_target(), Some("ada"));
    let m = OwnedMessage::new(Some("irc.server.net"), "QUIT", vec![], None).unwrap();
    assert_eq!(m.response_target(), None);
    let m = OwnedMessage::new(None, "JOIN", vec!["#channel"], None).unwrap();
    assert_eq!(m.response_target(), None);
}

#[test]
fn source_nicknames() {
    let nick = |p: &str| {
        OwnedMessage::new(Some(p), "PING", vec![], None)
            .unwrap()
            .source_nickname()
            .map(|s| s.to_string())
    };
    assert_eq!(nick("a.b!c@d"), Some(format!("a.b")));
    assert_eq!(nick("host.name@x"), Some(format!("host.name")));
    assert_eq!(nick("irc.x"), None);
    assert_eq!(nick(""), Some(format!("")));
}

#[test]
fn channel_names() {
    assert!(is_channel_name("#a"));
    assert!(is_channel_name("&a"));
    assert!(is_channel_name("+a"));
    assert!(is_channel_name("!a"));
    assert!(!is_channel_name("a#"));
    assert!(!is_channel_name(""));
}

#[test]
fn message_from_command() {
    let msg = OwnedMessage::from(Command::QUIT(None));
    assert_eq!(msg, OwnedMessage { tags: None, prefix: None, command: Command::QUIT(None) });
}

#[test]
fn with_tags_keeps_the_tags() {
    let msg = OwnedMessage::with_tags(
        Some(vec![Tag(format!("t"), None)]),
        Some("p"),
        "JOIN",
        vec!["#c"],
        None,
    )
    .unwrap();
    assert_eq!(msg.tags, Some(vec![Tag(format!("t"), None)]));
    assert_eq!(msg.prefix, Some(format!("p")));
    assert_eq!(msg.to_string(), "@t :p JOIN #c\r\n");
}

#[test]
fn unicode_text_is_kept() {
    let line = ":ünï PRIVMSG #kanal :grüße 👋\r\n";
    let msg = parse(line);
    assert_eq!(msg.prefix, Some(format!("ünï")));
    assert_eq!(msg.command, Command::PRIVMSG(format!("#kanal"), format!("grüße 👋")));
    assert_eq!(msg.to_string(), line);
}
