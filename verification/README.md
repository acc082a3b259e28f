# irc_proto

Messages of the IRC protocol (with IRCv3 tags): reading a protocol line into a message,
printing a message as a protocol line, and asking a message for its source nickname and
for where to answer it. Every function of the library is verified with Verus against a
mathematical model of the text involved.

- `src/text.rs`: the character-level model (first occurrence, `split`, `splitn`, joining,
  ASCII case folding) and the scanning helpers that implement it.
- `src/chan.rs`: channel names.
- `src/command.rs`: commands, how they are recognised from a word, arguments and a suffix,
  and how they print.
- `src/error.rs`: the errors of reading a line.
- `src/message.rs`: tags and messages; reading (`OwnedMessage::parse`, also through
  `FromStr`), printing, `source_nickname`, `response_target`.
- `src/laws.rs`: laws across functions, chiefly that a well-formed message printed and read
  back is the same message.
- `tests/`: the scenarios, run against the compiled library.
