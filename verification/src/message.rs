//! IRC messages: tags, prefix and command, with printing, reading and inspection.
use vstd::prelude::*;
use crate::chan::{is_channel_name, spec_is_channel_name};
use crate::command::{
    command_of, command_parts, command_string, opt_str_view, opt_view, strs_view, Command,
    CommandView,
};
use crate::error::{MessageParseError, ProtocolError, ProtocolErrorView};
use crate::text::{
    chars_of, find_char, find_char_in, find_pair, find_pair_in, lemma_nonempty_prepend, no_char,
    nonempty_pieces, piece, split, splitn, starts_with,
};

verus! {

/// A message tag: a key and an optional value (`key=value` or `key` in the tag list).
#[derive(Clone, PartialEq, Debug)]
pub struct Tag(pub String, pub Option<String>);

impl View for Tag {
    type V = (Seq<char>, Option<Seq<char>>);

    open spec fn view(&self) -> (Seq<char>, Option<Seq<char>>) {
        (self.0@, opt_view(self.1))
    }
}

/// The values of the tags.
pub open spec fn tags_view(v: Seq<Tag>) -> Seq<(Seq<char>, Option<Seq<char>>)> {
    v.map_values(|t: Tag| t@)
}

/// The values of optional tags.
pub open spec fn opt_tags_view(o: Option<Vec<Tag>>) -> Option<Seq<(Seq<char>, Option<Seq<char>>)>> {
    match o {
        Some(v) => Some(tags_view(v@)),
        None => None,
    }
}

/// A message: optional tags, an optional prefix (the source) and the command.
#[derive(Clone, PartialEq, Debug)]
pub struct OwnedMessage {
    /// The message tags, if the message has a tag section.
    pub tags: Option<Vec<Tag>>,
    /// The message prefix (source), if any.
    pub prefix: Option<String>,
    /// The command with its arguments.
    pub command: Command,
}

/// The mathematical value of a message.
pub struct MessageView {
    pub tags: Option<Seq<(Seq<char>, Option<Seq<char>>)>>,
    pub prefix: Option<Seq<char>>,
    pub command: CommandView,
}

impl View for OwnedMessage {
    type V = MessageView;

    open spec fn view(&self) -> MessageView {
        MessageView {
            tags: opt_tags_view(self.tags),
            prefix: opt_view(self.prefix),
            command: self.command@,
        }
    }
}

/// How a tag prints: `key` or `key=value`.
pub open spec fn tag_string(t: (Seq<char>, Option<Seq<char>>)) -> Seq<char> {
    match t.1 {
        Some(v) => t.0 + seq!['='] + v,
        None => t.0,
    }
}

/// Each tag followed by `;`.
pub open spec fn tags_body(ts: Seq<(Seq<char>, Option<Seq<char>>)>) -> Seq<char>
    decreases ts.len(),
{
    if ts.len() == 0 {
        Seq::empty()
    } else {
        tag_string(ts[0]) + seq![';'] + tags_body(ts.drop_first())
    }
}

/// The tag list with one tag more.
pub proof fn lemma_tags_body_push(ts: Seq<(Seq<char>, Option<Seq<char>>)>, t: (Seq<char>, Option<Seq<char>>))
    ensures
        tags_body(ts.push(t)) == tags_body(ts) + tag_string(t) + seq![';'],
    decreases ts.len(),
{
    if ts.len() == 0 {
        let e = Seq::<(Seq<char>, Option<Seq<char>>)>::empty();
        assert(ts.push(t).drop_first() =~= e);
        assert(tags_body(e) == Seq::<char>::empty());
        assert(ts.push(t)[0] == t);
        assert(tags_body(ts) == Seq::<char>::empty());
        assert(tags_body(ts.push(t)) =~= tags_body(ts) + tag_string(t) + seq![';']);
    } else {
        assert(ts.push(t).drop_first() =~= ts.drop_first().push(t));
        lemma_tags_body_push(ts.drop_first(), t);
        assert(tags_body(ts.push(t)) =~= tags_body(ts) + tag_string(t) + seq![';']);
    }
}

/// How the tag section prints: `@`, the tags separated by `;`, then a space. The last
/// character before the space is dropped, which is the final `;` (or the `@` when there
/// are no tags).
pub open spec fn tags_string(tags: Option<Seq<(Seq<char>, Option<Seq<char>>)>>) -> Seq<char> {
    match tags {
        Some(ts) => (seq!['@'] + tags_body(ts)).drop_last() + seq![' '],
        None => Seq::empty(),
    }
}

/// How the prefix prints: `:prefix `.
pub open spec fn prefix_string(prefix: Option<Seq<char>>) -> Seq<char> {
    match prefix {
        Some(p) => seq![':'] + p + seq![' '],
        None => Seq::empty(),
    }
}

/// How a message prints: tags, prefix, command line and `\r\n`.
pub open spec fn message_string(m: MessageView) -> Seq<char> {
    tags_string(m.tags) + prefix_string(m.prefix) + command_string(m.command) + seq!['\r', '\n']
}

/// The nickname in a prefix `nick[!user][@host]`: the part before the first `!`, else before
/// the first `@`; a prefix with neither and without `.` is a nickname; one with a `.` names
/// a server, which has no nickname.
pub open spec fn nickname_of(p: Seq<char>) -> Option<Seq<char>> {
    match find_char(p, '!') {
        Some(i) => Some(p.take(i)),
        None => match find_char(p, '@') {
            Some(i) => Some(p.take(i)),
            None => match find_char(p, '.') {
                Some(_) => None,
                None => Some(p),
            },
        },
    }
}

/// The nickname of the message source.
pub open spec fn source_nickname_of(m: MessageView) -> Option<Seq<char>> {
    match m.prefix {
        Some(p) => nickname_of(p),
        None => None,
    }
}

/// Where to answer a message: the channel of a `PRIVMSG` or `NOTICE` sent to a channel,
/// otherwise the nickname of the source.
pub open spec fn response_target_of(m: MessageView) -> Option<Seq<char>> {
    match m.command {
        CommandView::PRIVMSG(t, _) if spec_is_channel_name(t) => Some(t),
        CommandView::NOTICE(t, _) if spec_is_channel_name(t) => Some(t),
        _ => source_nickname_of(m),
    }
}

/// The message that the given parts make.
pub open spec fn message_of(
    tags: Option<Seq<(Seq<char>, Option<Seq<char>>)>>,
    prefix: Option<Seq<char>>,
    cmd: Seq<char>,
    args: Seq<Seq<char>>,
    suffix: Option<Seq<char>>,
) -> MessageView {
    MessageView { tags, prefix, command: command_of(cmd, args, suffix) }
}

/// The tag a tag text stands for: the key before the first `=`, and the value after it when
/// there is one.
pub open spec fn tag_of(t: Seq<char>) -> (Seq<char>, Option<Seq<char>>) {
    match find_char(t, '=') {
        Some(i) => (t.take(i), Some(t.skip(i + 1))),
        None => (t, None),
    }
}

/// The tags a tag list stands for: its nonempty `;`-separated pieces, each read as a tag.
pub open spec fn tags_of(ts: Seq<char>) -> Seq<(Seq<char>, Option<Seq<char>>)> {
    nonempty_pieces(split(ts, ';')).map_values(|t: Seq<char>| tag_of(t))
}

/// The tag section of a line and what follows it. A line that starts with `@` has its tags up
/// to the first space; without a space there are neither tags nor anything after them.
pub open spec fn tags_section(s: Seq<char>) -> (Option<Seq<(Seq<char>, Option<Seq<char>>)>>, Seq<char>) {
    if starts_with(s, '@') {
        match find_char(s, ' ') {
            Some(i) => (Some(tags_of(s.subrange(1, i))), s.skip(i + 1)),
            None => (None, Seq::empty()),
        }
    } else {
        (None, s)
    }
}

/// The prefix of what follows the tags, and what follows the prefix. A text that starts with
/// `:` has its prefix up to the first space; without a space there is neither a prefix nor
/// anything after it.
pub open spec fn prefix_section(s: Seq<char>) -> (Option<Seq<char>>, Seq<char>) {
    if starts_with(s, ':') {
        match find_char(s, ' ') {
            Some(i) => (Some(s.subrange(1, i)), s.skip(i + 1)),
            None => (None, Seq::empty()),
        }
    } else {
        (None, s)
    }
}

/// The length of the line ending of `s`: `\r\n`, `\r` or `\n`, or none.
pub open spec fn line_ending_len(s: Seq<char>) -> int {
    if s.len() >= 2 && s[s.len() - 2] == '\r' && s[s.len() - 1] == '\n' {
        2
    } else if s.len() >= 1 && (s[s.len() - 1] == '\r' || s[s.len() - 1] == '\n') {
        1
    } else {
        0
    }
}

/// The suffix of the command text and the text before it. The suffix follows the first
/// ` :` and runs to the line ending; the text before it keeps the space. Without ` :` there
/// is no suffix and the text is all but the line ending.
pub open spec fn suffix_section(s: Seq<char>) -> (Option<Seq<char>>, Seq<char>) {
    match find_pair(s, ' ', ':') {
        Some(i) => (Some(s.subrange(i + 2, s.len() - line_ending_len(s))), s.take(i + 1)),
        None => (None, s.take(s.len() - line_ending_len(s))),
    }
}

/// The command word and the argument text: split at the first space. A text without a space
/// is all command word, unless it starts with `:`, in which case there is no command.
pub open spec fn command_section(s: Seq<char>) -> Option<(Seq<char>, Seq<char>)> {
    match find_char(s, ' ') {
        Some(i) => Some((s.take(i), s.skip(i + 1))),
        None => if starts_with(s, ':') {
            None
        } else {
            Some((s, Seq::empty()))
        },
    }
}

/// The arguments in an argument text: the nonempty pieces among at most 14 split at spaces.
pub open spec fn args_of(s: Seq<char>) -> Seq<Seq<char>> {
    nonempty_pieces(splitn(s, 14, ' '))
}

/// What reading the line `s` gives: the message it holds, or the error, with the line.
pub open spec fn parse_message(s: Seq<char>) -> Result<MessageView, ProtocolErrorView> {
    if s.len() == 0 {
        Err(ProtocolErrorView::InvalidMessage { string: s, cause: MessageParseError::EmptyMessage })
    } else {
        let (tags, s1) = tags_section(s);
        let (prefix, s2) = prefix_section(s1);
        let (suffix, s3) = suffix_section(s2);
        match command_section(s3) {
            None => Err(
                ProtocolErrorView::InvalidMessage {
                    string: s,
                    cause: MessageParseError::InvalidCommand,
                },
            ),
            Some((cmd, rest)) => Ok(message_of(tags, prefix, cmd, args_of(rest), suffix)),
        }
    }
}

/// The value of a reading result.
pub open spec fn parse_result_view(r: Result<OwnedMessage, ProtocolError>) -> Result<
    MessageView,
    ProtocolErrorView,
> {
    match r {
        Ok(m) => Ok(m@),
        Err(e) => Err(e@),
    }
}

/// The tag that the text `v[a..b]` of `s` stands for.
fn read_tag(s: &str, v: &Vec<char>, a: usize, b: usize) -> (t: Tag)
    requires
        v@ == s@,
        a <= b <= v.len(),
    ensures
        t@ == tag_of(v@.subrange(a as int, b as int)),
{
    let ghost t = v@.subrange(a as int, b as int);
    match find_char_in(v, a, b, '=') {
        Some(k) => {
            assert(t.take(k - a) =~= v@.subrange(a as int, k as int));
            assert(t.skip(k - a + 1) =~= v@.subrange(k + 1, b as int));
            Tag(piece(s, v, a, k).to_owned(), Some(piece(s, v, k + 1, b).to_owned()))
        },
        None => Tag(piece(s, v, a, b).to_owned(), None),
    }
}

/// The tags that the tag list `v[lo..hi]` of `s` stands for.
fn read_tags(s: &str, v: &Vec<char>, lo: usize, hi: usize) -> (r: Vec<Tag>)
    requires
        v@ == s@,
        lo <= hi <= v.len(),
    ensures
        tags_view(r@) == tags_of(v@.subrange(lo as int, hi as int)),
{
    let mut out: Vec<Tag> = Vec::new();
    let mut p = lo;
    loop
        invariant
            v@ == s@,
            lo <= p <= hi <= v.len(),
            tags_view(out@) + tags_of(v@.subrange(p as int, hi as int)) == tags_of(
                v@.subrange(lo as int, hi as int),
            ),
        decreases hi - p,
    {
        let ghost rest = v@.subrange(p as int, hi as int);
        let ghost before = out@;
        match find_char_in(v, p, hi, ';') {
            Some(k) => {
                let ghost x = v@.subrange(p as int, k as int);
                let ghost tail = v@.subrange(k + 1, hi as int);
                assert(rest.take(k - p) =~= x);
                assert(rest.skip(k - p + 1) =~= tail);
                assert(split(rest, ';') == seq![x] + split(tail, ';'));
                proof {
                    lemma_nonempty_prepend(x, split(tail, ';'));
                }
                if k > p {
                    let t = read_tag(s, v, p, k);
                    out.push(t);
                    assert(tags_view(out@) =~= tags_view(before) + seq![tag_of(x)]);
                    assert(tags_of(rest) =~= seq![tag_of(x)] + tags_of(tail));
                } else {
                    assert(tags_of(rest) =~= tags_of(tail));
                }
                assert(tags_view(out@) + tags_of(tail) =~= tags_view(before) + tags_of(rest));
                p = k + 1;
            },
            None => {
                assert(split(rest, ';') == seq![rest]);
                proof {
                    lemma_nonempty_prepend(rest, Seq::empty());
                    assert(seq![rest] + Seq::<Seq<char>>::empty() =~= seq![rest]);
                    assert(Seq::<Seq<char>>::empty().filter(crate::text::nonempty_pred())
                        =~= Seq::<Seq<char>>::empty());
                }
                if p < hi {
                    let t = read_tag(s, v, p, hi);
                    out.push(t);
                    assert(tags_view(out@) =~= tags_view(before) + seq![tag_of(rest)]);
                    assert(tags_of(rest) =~= seq![tag_of(rest)]);
                } else {
                    assert(tags_of(rest) =~= Seq::<(Seq<char>, Option<Seq<char>>)>::empty());
                }
                assert(tags_view(out@) =~= tags_view(before) + tags_of(rest));
                return out;
            },
        }
    }
}

/// The arguments in the argument text `v[lo..hi]` of `s`.
fn read_args<'a>(s: &'a str, v: &Vec<char>, lo: usize, hi: usize) -> (r: Vec<&'a str>)
    requires
        v@ == s@,
        lo <= hi <= v.len(),
    ensures
        strs_view(r@) == args_of(v@.subrange(lo as int, hi as int)),
{
    let mut out: Vec<&'a str> = Vec::new();
    let mut p = lo;
    let mut m: usize = 14;
    loop
        invariant
            v@ == s@,
            lo <= p <= hi <= v.len(),
            1 <= m <= 14,
            strs_view(out@) + nonempty_pieces(splitn(v@.subrange(p as int, hi as int), m as nat, ' '))
                == args_of(v@.subrange(lo as int, hi as int)),
        decreases hi - p,
    {
        let ghost rest = v@.subrange(p as int, hi as int);
        let ghost before = out@;
        let found = if m == 1 {
            None
        } else {
            find_char_in(v, p, hi, ' ')
        };
        match found {
            Some(k) => {
                let ghost x = v@.subrange(p as int, k as int);
                let ghost tail = v@.subrange(k + 1, hi as int);
                assert(rest.take(k - p) =~= x);
                assert(rest.skip(k - p + 1) =~= tail);
                assert(splitn(rest, m as nat, ' ') == seq![x] + splitn(tail, (m - 1) as nat, ' '));
                proof {
                    lemma_nonempty_prepend(x, splitn(tail, (m - 1) as nat, ' '));
                }
                if k > p {
                    out.push(piece(s, v, p, k));
                    assert(strs_view(out@) =~= strs_view(before) + seq![x]);
                }
                assert(strs_view(out@) + nonempty_pieces(splitn(tail, (m - 1) as nat, ' '))
                    =~= strs_view(before) + nonempty_pieces(splitn(rest, m as nat, ' ')));
                p = k + 1;
                m = m - 1;
            },
            None => {
                assert(splitn(rest, m as nat, ' ') == seq![rest]);
                proof {
                    lemma_nonempty_prepend(rest, Seq::empty());
                    assert(seq![rest] + Seq::<Seq<char>>::empty() =~= seq![rest]);
                    assert(Seq::<Seq<char>>::empty().filter(crate::text::nonempty_pred())
                        =~= Seq::<Seq<char>>::empty());
                }
                if p < hi {
                    out.push(piece(s, v, p, hi));
                    assert(strs_view(out@) =~= strs_view(before) + seq![rest]);
                }
                assert(strs_view(out@) =~= strs_view(before) + nonempty_pieces(
                    splitn(rest, m as nat, ' '),
                ));
                return out;
            },
        }
    }
}

/// Reads the tag section of the line `s`, whose characters are `v`; gives the tags and where
/// the rest starts.
fn read_tag_section(s: &str, v: &Vec<char>) -> (r: (Option<Vec<Tag>>, usize))
    requires
        v@ == s@,
        v.len() > 0,
    ensures
        r.1 <= v.len(),
        (opt_tags_view(r.0), v@.subrange(r.1 as int, v.len() as int)) == tags_section(s@),
{
    let n = v.len();
    assert(v@.subrange(0, n as int) =~= s@);
    if v[0] == '@' {
        match find_char_in(v, 0, n, ' ') {
            Some(i) => {
                let t = read_tags(s, v, 1, i);
                assert(s@.skip(i + 1) =~= v@.subrange(i + 1, n as int));
                (Some(t), i + 1)
            },
            None => {
                assert(v@.subrange(n as int, n as int) =~= Seq::<char>::empty());
                (None, n)
            },
        }
    } else {
        (None, 0)
    }
}

/// Reads the prefix from `v[lo..]`; gives it and where the rest starts.
fn read_prefix_section<'a>(s: &'a str, v: &Vec<char>, lo: usize) -> (r: (Option<&'a str>, usize))
    requires
        v@ == s@,
        lo <= v.len(),
    ensures
        lo <= r.1 <= v.len(),
        (opt_str_view(r.0), v@.subrange(r.1 as int, v.len() as int)) == prefix_section(
            v@.subrange(lo as int, v.len() as int),
        ),
{
    let n = v.len();
    let ghost s1 = v@.subrange(lo as int, n as int);
    if lo < n && v[lo] == ':' {
        match find_char_in(v, lo, n, ' ') {
            Some(i) => {
                assert(s1.subrange(1, i - lo) =~= v@.subrange(lo + 1, i as int));
                assert(s1.skip(i - lo + 1) =~= v@.subrange(i + 1, n as int));
                (Some(piece(s, v, lo + 1, i)), i + 1)
            },
            None => {
                assert(v@.subrange(n as int, n as int) =~= Seq::<char>::empty());
                (None, n)
            },
        }
    } else {
        (None, lo)
    }
}

/// Reads the suffix from `v[lo..]`; gives it and where the text before it ends.
fn read_suffix_section<'a>(s: &'a str, v: &Vec<char>, lo: usize) -> (r: (Option<&'a str>, usize))
    requires
        v@ == s@,
        lo <= v.len(),
    ensures
        lo <= r.1 <= v.len(),
        (opt_str_view(r.0), v@.subrange(lo as int, r.1 as int)) == suffix_section(
            v@.subrange(lo as int, v.len() as int),
        ),
{
    let n = v.len();
    let ghost s2 = v@.subrange(lo as int, n as int);
    let e: usize = if n - lo >= 2 && v[n - 2] == '\r' && v[n - 1] == '\n' {
        2
    } else if n - lo >= 1 && (v[n - 1] == '\r' || v[n - 1] == '\n') {
        1
    } else {
        0
    };
    assert(e == line_ending_len(s2));
    match find_pair_in(v, lo, n, ' ', ':') {
        Some(i) => {
            proof {
                assert(crate::text::is_first_pair(s2, ' ', ':', i - lo));
                assert(s2[i - lo + 1] == ':');
            }
            assert(i + 2 <= n - e);
            assert(s2.subrange(i - lo + 2, s2.len() - e) =~= v@.subrange(i + 2, n - e));
            assert(s2.take(i - lo + 1) =~= v@.subrange(lo as int, i + 1));
            (Some(piece(s, v, i + 2, n - e)), i + 1)
        },
        None => {
            assert(s2.take(s2.len() - e) =~= v@.subrange(lo as int, n - e));
            (None, n - e)
        },
    }
}

/// Reads the command word from `v[lo..hi]`; gives it and where the argument text starts, or
/// nothing when there is no command.
fn read_command_section<'a>(s: &'a str, v: &Vec<char>, lo: usize, hi: usize) -> (r: Option<
    (&'a str, usize),
>)
    requires
        v@ == s@,
        lo <= hi <= v.len(),
    ensures
        match r {
            Some((c, k)) => lo <= k <= hi && command_section(v@.subrange(lo as int, hi as int))
                == Some((c@, v@.subrange(k as int, hi as int))),
            None => command_section(v@.subrange(lo as int, hi as int)) is None,
        },
{
    let ghost s3 = v@.subrange(lo as int, hi as int);
    match find_char_in(v, lo, hi, ' ') {
        Some(i) => {
            assert(s3.take(i - lo) =~= v@.subrange(lo as int, i as int));
            assert(s3.skip(i - lo + 1) =~= v@.subrange(i + 1, hi as int));
            Some((piece(s, v, lo, i), i + 1))
        },
        None => {
            if lo < hi && v[lo] == ':' {
                return None;
            }
            assert(v@.subrange(hi as int, hi as int) =~= Seq::<char>::empty());
            assert(s3 =~= v@.subrange(lo as int, hi as int));
            Some((piece(s, v, lo, hi), hi))
        },
    }
}

/// A tag that prints as text from which it is read back: a key without space, `;` or `=`,
/// a value without space or `;`, and a nonempty key when there is no value.
pub open spec fn tag_well_formed(t: (Seq<char>, Option<Seq<char>>)) -> bool {
    &&& no_char(t.0, ' ')
    &&& no_char(t.0, ';')
    &&& no_char(t.0, '=')
    &&& match t.1 {
        Some(v) => no_char(v, ' ') && no_char(v, ';'),
        None => t.0.len() > 0,
    }
}

/// An argument that prints as text from which it is read back: nonempty, without space and
/// not starting with `:`.
pub open spec fn arg_well_formed(a: Seq<char>) -> bool {
    &&& a.len() > 0
    &&& no_char(a, ' ')
    &&& a[0] != ':'
}

/// A message that prints as a line from which it is read back unchanged:
/// - a tag section, if present, holds at least one tag, and each is well formed;
/// - the prefix has no space;
/// - the command word has no space; it starts with `:` only after a prefix and when
///   arguments or a suffix follow it, and with `@` only after tags or a prefix;
/// - each argument is well formed, and there are at most 14 of them, 13 with a suffix;
/// - the command is the one that its word, arguments and suffix make.
pub open spec fn well_formed(m: MessageView) -> bool {
    let (w, a, sfx) = command_parts(m.command);
    &&& (m.tags matches Some(ts) ==> ts.len() > 0 && forall|i: int|
        0 <= i < ts.len() ==> #[trigger] tag_well_formed(ts[i]))
    &&& (m.prefix matches Some(p) ==> no_char(p, ' '))
    &&& no_char(w, ' ')
    &&& (starts_with(w, ':') ==> m.prefix is Some && (a.len() > 0 || sfx is Some))
    &&& (starts_with(w, '@') ==> m.tags is Some || m.prefix is Some)
    &&& (forall|i: int| 0 <= i < a.len() ==> #[trigger] arg_well_formed(a[i]))
    &&& a.len() <= (if sfx is Some {
        13int
    } else {
        14int
    })
    &&& command_of(w, a, sfx) == m.command
}

/// The characters of the literals that messages print with.
proof fn lemma_message_literals()
    ensures
        "@"@ == seq!['@'],
        ":"@ == seq![':'],
        ";"@ == seq![';'],
        "="@ == seq!['='],
        " "@ == seq![' '],
        "\r\n"@ == seq!['\r', '\n'],
{
    reveal_strlit("@");
    reveal_strlit(":");
    reveal_strlit(";");
    reveal_strlit("=");
    reveal_strlit(" ");
    reveal_strlit("\r\n");
    assert("@"@ =~= seq!['@']);
    assert(":"@ =~= seq![':']);
    assert(";"@ =~= seq![';']);
    assert("="@ =~= seq!['=']);
    assert(" "@ =~= seq![' ']);
    assert("\r\n"@ =~= seq!['\r', '\n']);
}

/// Appends how `t` prints.
fn append_tag(out: &mut String, t: &Tag)
    ensures
        final(out)@ == old(out)@ + tag_string(t@),
{
    proof {
        lemma_message_literals();
    }
    out.append(t.0.as_str());
    match &t.1 {
        Some(v) => {
            out.append("=");
            out.append(v.as_str());
        },
        None => {},
    }
}

impl OwnedMessage {
    /// Creates a message without tags from the given parts.
    pub fn new(prefix: Option<&str>, command: &str, args: Vec<&str>, suffix: Option<&str>) -> (r:
        Result<OwnedMessage, MessageParseError>)
        ensures
            r matches Ok(m) && m@ == message_of(
                None,
                opt_str_view(prefix),
                command@,
                strs_view(args@),
                opt_str_view(suffix),
            ),
    {
        OwnedMessage::with_tags(None, prefix, command, args, suffix)
    }

    /// Creates a message from the given parts, tags included.
    pub fn with_tags(
        tags: Option<Vec<Tag>>,
        prefix: Option<&str>,
        command: &str,
        args: Vec<&str>,
        suffix: Option<&str>,
    ) -> (r: Result<OwnedMessage, MessageParseError>)
        ensures
            r matches Ok(m) && m@ == message_of(
                opt_tags_view(tags),
                opt_str_view(prefix),
                command@,
                strs_view(args@),
                opt_str_view(suffix),
            ),
    {
        let cmd = match Command::new(command, args, suffix) {
            Ok(c) => c,
            Err(e) => {
                return Err(e);
            },
        };
        Ok(
            OwnedMessage {
                tags: tags,
                prefix: match prefix {
                    Some(s) => Some(s.to_owned()),
                    None => None,
                },
                command: cmd,
            },
        )
    }

    /// The nickname of the message source, if it has one.
    pub fn source_nickname(&self) -> (r: Option<&str>)
        ensures
            opt_str_view(r) == source_nickname_of(self@),
    {
        match &self.prefix {
            None => None,
            Some(p) => {
                let s = p.as_str();
                let v = chars_of(s);
                let n = v.len();
                assert(v@.subrange(0, n as int) =~= s@);
                match find_char_in(&v, 0, n, '!') {
                    Some(i) => {
                        return Some(s.substring_char(0, i));
                    },
                    None => {},
                }
                match find_char_in(&v, 0, n, '@') {
                    Some(i) => {
                        return Some(s.substring_char(0, i));
                    },
                    None => {},
                }
                match find_char_in(&v, 0, n, '.') {
                    Some(_) => None,
                    None => Some(s),
                }
            },
        }
    }

    /// Where to answer this message: the channel of a `PRIVMSG` or `NOTICE` sent to a
    /// channel, otherwise the nickname of the source.
    pub fn response_target(&self) -> (r: Option<&str>)
        ensures
            opt_str_view(r) == response_target_of(self@),
    {
        match &self.command {
            Command::PRIVMSG(t, _) => {
                if is_channel_name(t.as_str()) {
                    return Some(t.as_str());
                }
            },
            Command::NOTICE(t, _) => {
                if is_channel_name(t.as_str()) {
                    return Some(t.as_str());
                }
            },
            _ => {},
        }
        self.source_nickname()
    }

    /// Reads a message from a protocol line. The line may end in `\r\n`, `\r`, `\n` or
    /// nothing. An empty line is refused with `EmptyMessage`; a line whose command text has
    /// no space and starts with `:` is refused with `InvalidCommand`. Every other line is read.
    pub fn parse(s: &str) -> (r: Result<OwnedMessage, ProtocolError>)
        ensures
            parse_result_view(r) == parse_message(s@),
    {
        if s.is_empty() {
            return Err(
                ProtocolError::InvalidMessage {
                    string: s.to_owned(),
                    cause: MessageParseError::EmptyMessage,
                },
            );
        }
        let v = chars_of(s);
        let (tags, lo) = read_tag_section(s, &v);
        let (prefix, lo2) = read_prefix_section(s, &v, lo);
        let (suffix, hi3) = read_suffix_section(s, &v, lo2);
        match read_command_section(s, &v, lo2, hi3) {
            None => Err(
                ProtocolError::InvalidMessage {
                    string: s.to_owned(),
                    cause: MessageParseError::InvalidCommand,
                },
            ),
            Some((cmd, lo4)) => {
                let args = read_args(s, &v, lo4, hi3);
                match OwnedMessage::with_tags(tags, prefix, cmd, args, suffix) {
                    Ok(m) => Ok(m),
                    Err(cause) => Err(ProtocolError::InvalidMessage { string: s.to_owned(), cause }),
                }
            },
        }
    }

    /// The message as the protocol writes it, line ending included.
    pub fn to_string(&self) -> (r: String)
        ensures
            r@ == message_string(self@),
    {
        proof {
            lemma_message_literals();
        }
        let mut ret = String::new();
        match &self.tags {
            Some(tags) => {
                let ghost ts = tags_view(tags@);
                if tags.len() == 0 {
                    ret.append(" ");
                    assert(ret@ =~= tags_string(Some(ts)));
                } else {
                    ret.append("@");
                    let mut i: usize = 0;
                    while i < tags.len()
                        invariant
                            0 < tags.len(),
                            i <= tags.len(),
                            ts == tags_view(tags@),
                            i == 0 ==> ret@ == seq!['@'],
                            i > 0 ==> ret@ == seq!['@'] + tags_body(ts.take(i as int)).drop_last(),
                        decreases tags.len() - i,
                    {
                        proof {
                            lemma_message_literals();
                        }
                        if i > 0 {
                            ret.append(";");
                        }
                        append_tag(&mut ret, &tags[i]);
                        proof {
                            assert(ts.take(i + 1) =~= ts.take(i as int).push(tags@[i as int]@));
                            lemma_tags_body_push(ts.take(i as int), tags@[i as int]@);
                            if i == 0 {
                                assert(tags_body(ts.take(0)) =~= Seq::<char>::empty());
                            } else {
                                lemma_tags_body_push(ts.take(i - 1), tags@[i - 1]@);
                                assert(ts.take(i as int) =~= ts.take(i - 1).push(tags@[i - 1]@));
                            }
                        }
                        i = i + 1;
                        assert(ret@ =~= seq!['@'] + tags_body(ts.take(i as int)).drop_last());
                    }
                    assert(ts.take(tags.len() as int) =~= ts);
                    ret.append(" ");
                    assert(ret@ =~= tags_string(Some(ts)));
                }
            },
            None => {},
        }
        let ghost after_tags = ret@;
        match &self.prefix {
            Some(p) => {
                ret.append(":");
                ret.append(p.as_str());
                ret.append(" ");
            },
            None => {},
        }
        assert(ret@ =~= after_tags + prefix_string(self@.prefix));
        let cmd = self.command.to_string();
        ret.append(cmd.as_str());
        ret.append("\r\n");
        assert(ret@ =~= message_string(self@));
        ret
    }
}

impl From<Command> for OwnedMessage {
    /// A message without tags or prefix that holds `cmd`.
    fn from(cmd: Command) -> (r: OwnedMessage)
        ensures
            r@ == (MessageView { tags: None, prefix: None, command: cmd@ }),
            r.command == cmd,
    {
        OwnedMessage { tags: None, prefix: None, command: cmd }
    }
}

impl std::str::FromStr for OwnedMessage {
    type Err = ProtocolError;

    /// Reads a message from a protocol line; see `OwnedMessage::parse`.
    fn from_str(s: &str) -> (r: Result<OwnedMessage, ProtocolError>)
        ensures
            parse_result_view(r) == parse_message(s@),
    {
        OwnedMessage::parse(s)
    }
}

impl vstd::std_specs::convert::FromSpecImpl<Command> for OwnedMessage {
    open spec fn obeys_from_spec() -> bool {
        true
    }

    open spec fn from_spec(cmd: Command) -> OwnedMessage {
        OwnedMessage { tags: None, prefix: None, command: cmd }
    }
}

} // verus!
