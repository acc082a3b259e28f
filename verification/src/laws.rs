//! Laws that relate printing and reading messages.
use vstd::prelude::*;
use crate::chan::spec_is_channel_name;
use crate::command::{command_of, command_parts, command_string, stringify, CommandView};
use crate::message::{
    arg_well_formed, args_of, command_section, message_string, parse_message, prefix_string,
    response_target_of, source_nickname_of,
    suffix_section, tag_of, tag_string, tag_well_formed, tags_body, tags_of, tags_string,
    well_formed, MessageView,
};
use crate::text::{
    find_char, is_first_char, is_first_pair, join, lemma_find_char_first, lemma_find_char_none,
    lemma_find_pair_first, lemma_no_char_no_pair, lemma_no_pair_concat, lemma_no_pair_find,
    lemma_nonempty_all, lemma_nonempty_prepend, lemma_nonempty_push_empty, lemma_split_at,
    lemma_split_no_char, lemma_splitn_join, lemma_splitn_join_sep, no_char, no_pair,
    pair_at, split, starts_with, lemma_find_char_append, lemma_find_pair_append,
};
use crate::message::{tags_section, prefix_section, line_ending_len};
use crate::error::ProtocolErrorView;

verus! {

/// `x c y`, where `x` holds no `c`, has its first `c` right after `x`.
proof fn lemma_first_char_after(x: Seq<char>, c: char, y: Seq<char>)
    requires
        no_char(x, c),
    ensures
        find_char(x + seq![c] + y, c) == Some(x.len() as int),
{
    let s = x + seq![c] + y;
    assert forall|j: int| 0 <= j < x.len() implies s[j] != c by {
        assert(s[j] == x[j]);
    }
    assert(is_first_char(s, c, x.len() as int));
    lemma_find_char_first(s, c, x.len() as int);
}

/// A well-formed tag prints as nonempty text without space or `;` and reads back as itself.
proof fn lemma_tag_round_trip(t: (Seq<char>, Option<Seq<char>>))
    requires
        tag_well_formed(t),
    ensures
        tag_string(t).len() > 0,
        no_char(tag_string(t), ' '),
        no_char(tag_string(t), ';'),
        tag_of(tag_string(t)) == t,
{
    match t.1 {
        Some(v) => {
            let s = t.0 + seq!['='] + v;
            assert(s == tag_string(t));
            lemma_first_char_after(t.0, '=', v);
            assert(s.take(t.0.len() as int) =~= t.0);
            assert(s.skip(t.0.len() as int + 1) =~= v);
            assert forall|i: int| 0 <= i < s.len() implies s[i] != ' ' && s[i] != ';' by {
                if i < t.0.len() {
                    assert(s[i] == t.0[i]);
                } else if i > t.0.len() {
                    assert(s[i] == v[i - t.0.len() - 1]);
                }
            }
        },
        None => {
            lemma_find_char_none(t.0, '=');
        },
    }
}

/// Well-formed tags print as a list without space that reads back as the same tags.
proof fn lemma_tags_round_trip(ts: Seq<(Seq<char>, Option<Seq<char>>)>)
    requires
        ts.len() > 0,
        forall|i: int| 0 <= i < ts.len() ==> #[trigger] tag_well_formed(ts[i]),
    ensures
        tags_body(ts) == tags_body(ts).drop_last() + seq![';'],
        no_char(tags_body(ts).drop_last(), ' '),
        tags_of(tags_body(ts).drop_last()) == ts,
    decreases ts.len(),
{
    let rest = ts.drop_first();
    let t0 = tag_string(ts[0]);
    assert(tag_well_formed(ts[0]));
    lemma_tag_round_trip(ts[0]);
    let b = tags_body(ts).drop_last();
    if ts.len() == 1 {
        assert(tags_body(rest) == Seq::<char>::empty());
        assert(tags_body(ts) =~= t0 + seq![';']);
        assert(b =~= t0);
        lemma_split_no_char(t0, 1, ';');
        lemma_nonempty_all(seq![t0]);
        assert(tags_of(b) =~= seq![tag_of(t0)]);
        assert(ts =~= seq![ts[0]]);
    } else {
        assert forall|i: int| 0 <= i < rest.len() implies #[trigger] tag_well_formed(rest[i]) by {
            assert(tag_well_formed(ts[i + 1]));
        }
        lemma_tags_round_trip(rest);
        let b2 = tags_body(rest).drop_last();
        assert(tags_body(ts) =~= t0 + seq![';'] + b2 + seq![';']);
        assert(b =~= t0 + seq![';'] + b2);
        assert forall|i: int| 0 <= i < b.len() implies b[i] != ' ' by {
            if i < t0.len() {
                assert(b[i] == t0[i]);
            } else if i > t0.len() {
                assert(b[i] == b2[i - t0.len() - 1]);
            }
        }
        lemma_split_at(t0, b2, 2, ';');
        lemma_nonempty_prepend(t0, split(b2, ';'));
        assert(tags_of(b) =~= seq![tag_of(t0)] + tags_of(b2));
        assert(ts =~= seq![ts[0]] + rest);
    }
}

/// Well-formed arguments join into text without the pattern ` :` that starts with the first
/// character of the first argument.
proof fn lemma_join_args(a: Seq<Seq<char>>)
    requires
        forall|i: int| 0 <= i < a.len() ==> #[trigger] arg_well_formed(a[i]),
    ensures
        no_pair(join(a, seq![' ']), ' ', ':'),
        a.len() > 0 ==> join(a, seq![' ']).len() > 0 && join(a, seq![' '])[0] == a[0][0],
    decreases a.len(),
{
    let j = join(a, seq![' ']);
    if a.len() == 0 {
        lemma_no_char_no_pair(j, ' ', ':');
    } else {
        assert(arg_well_formed(a[0]));
        lemma_no_char_no_pair(a[0], ' ', ':');
        if a.len() == 1 {
        } else {
            let rest = a.drop_first();
            assert forall|i: int| 0 <= i < rest.len() implies #[trigger] arg_well_formed(
                rest[i],
            ) by {
                assert(arg_well_formed(a[i + 1]));
            }
            lemma_join_args(rest);
            let jr = join(rest, seq![' ']);
            assert(arg_well_formed(rest[0]));
            assert(no_pair(seq![' '], ' ', ':'));
            lemma_no_pair_concat(seq![' '], jr, ' ', ':');
            lemma_no_pair_concat(a[0], seq![' '] + jr, ' ', ':');
            assert(j =~= a[0] + (seq![' '] + jr));
        }
    }
}

/// The command text of a command with well-formed parts, followed by `\r\n`, reads back as
/// the same suffix, command word and arguments; it starts with `:` or `@` only when the
/// command word does.
proof fn lemma_command_round_trip(w: Seq<char>, a: Seq<Seq<char>>, sfx: Option<Seq<char>>)
    requires
        no_char(w, ' '),
        forall|i: int| 0 <= i < a.len() ==> #[trigger] arg_well_formed(a[i]),
        a.len() <= (if sfx is Some {
            13int
        } else {
            14int
        }),
        !(starts_with(w, ':') && a.len() == 0 && sfx is None),
    ensures
        ({
            let s = stringify(w, a, sfx) + seq!['\r', '\n'];
            &&& suffix_section(s).0 == sfx
            &&& command_section(suffix_section(s).1) matches Some((cmd, rest)) && cmd == w
                && args_of(rest) == a
            &&& starts_with(s, ':') ==> starts_with(w, ':')
            &&& starts_with(s, '@') ==> starts_with(w, '@')
        }),
{
    let r = seq!['\r', '\n'];
    let j = join(a, seq![' ']);
    let sp = if j.len() == 0 {
        Seq::<char>::empty()
    } else {
        seq![' ']
    };
    let x = w + sp + j;
    lemma_join_args(a);
    lemma_no_char_no_pair(w, ' ', ':');
    // The text before the suffix has no ` :`.
    if a.len() == 0 {
        assert(j =~= Seq::<char>::empty());
        assert(x =~= w);
    } else {
        assert(no_pair(seq![' '], ' ', ':'));
        assert(arg_well_formed(a[0]));
        lemma_no_pair_concat(seq![' '], j, ' ', ':');
        lemma_no_pair_concat(w, seq![' '] + j, ' ', ':');
        assert(x =~= w + (seq![' '] + j));
    }
    assert(no_pair(x, ' ', ':'));
    let s = stringify(w, a, sfx) + r;
    let s3 = match sfx {
        Some(_) => x + seq![' '],
        None => x,
    };
    match sfx {
        Some(m) => {
            assert(s =~= x + seq![' ', ':'] + m + r);
            assert forall|k: int| 0 <= k < x.len() implies !#[trigger] pair_at(s, ' ', ':', k) by {
                if k + 1 < x.len() {
                    assert(!pair_at(x, ' ', ':', k));
                    assert(s[k] == x[k] && s[k + 1] == x[k + 1]);
                } else {
                    assert(s[k + 1] == ' ');
                }
            }
            assert(is_first_pair(s, ' ', ':', x.len() as int));
            lemma_find_pair_first(s, ' ', ':', x.len() as int);
            assert(s.subrange(x.len() as int + 2, s.len() - 2) =~= m);
            assert(s.take(x.len() as int + 1) =~= s3);
        },
        None => {
            assert(s =~= x + r);
            lemma_no_char_no_pair(r, ' ', ':');
            lemma_no_pair_concat(x, r, ' ', ':');
            lemma_no_pair_find(s, ' ', ':');
            assert(s.take(s.len() - 2) =~= s3);
        },
    }
    assert(suffix_section(s).1 == s3);
    // The command word and the arguments.
    if a.len() == 0 {
        let e = Seq::<char>::empty();
        lemma_split_no_char(e, 14, ' ');
        lemma_nonempty_push_empty(Seq::<Seq<char>>::empty());
        lemma_nonempty_all(Seq::<Seq<char>>::empty());
        assert(seq![e] =~= Seq::<Seq<char>>::empty().push(e));
        assert(args_of(e) =~= a);
        match sfx {
            Some(_) => {
                lemma_first_char_after(w, ' ', e);
                assert(w + seq![' '] + e =~= s3);
                assert(s3.take(w.len() as int) =~= w);
                assert(s3.skip(w.len() as int + 1) =~= e);
            },
            None => {
                lemma_find_char_none(s3, ' ');
            },
        }
    } else {
        assert forall|i: int| 0 <= i < a.len() implies #[trigger] no_char(a[i], ' ') by {
            assert(arg_well_formed(a[i]));
        }
        assert forall|i: int| 0 <= i < a.len() implies #[trigger] a[i].len() > 0 by {
            assert(arg_well_formed(a[i]));
        }
        lemma_nonempty_all(a);
        let rest = match sfx {
            Some(_) => j + seq![' '],
            None => j,
        };
        assert(s3 =~= w + seq![' '] + rest);
        lemma_first_char_after(w, ' ', rest);
        assert(s3.take(w.len() as int) =~= w);
        assert(s3.skip(w.len() as int + 1) =~= rest);
        match sfx {
            Some(_) => {
                lemma_splitn_join_sep(a, 14, ' ');
                lemma_nonempty_push_empty(a);
            },
            None => {
                lemma_splitn_join(a, 14, ' ');
            },
        }
        assert(args_of(rest) == a);
    }
    // The first character.
    if w.len() == 0 {
        if s.len() > 0 {
            assert(s[0] == ' ' || s[0] == '\r');
        }
    } else {
        assert(s[0] == w[0]);
    }
}

/// The tag section prints as text from which `tags_section` reads it back.
proof fn lemma_tags_stage(
    tags: Option<Seq<(Seq<char>, Option<Seq<char>>)>>,
    rest: Seq<char>,
)
    requires
        tags matches Some(ts) ==> ts.len() > 0 && forall|i: int|
            0 <= i < ts.len() ==> #[trigger] tag_well_formed(ts[i]),
        tags is None ==> !starts_with(rest, '@'),
    ensures
        crate::message::tags_section(tags_string(tags) + rest) == (tags, rest),
{
    let line = tags_string(tags) + rest;
    match tags {
        Some(ts) => {
            lemma_tags_round_trip(ts);
            let b = tags_body(ts).drop_last();
            assert((seq!['@'] + tags_body(ts)).drop_last() =~= seq!['@'] + b);
            let head = seq!['@'] + b;
            assert forall|i: int| 0 <= i < head.len() implies head[i] != ' ' by {
                if i > 0 {
                    assert(head[i] == b[i - 1]);
                }
            }
            assert(line =~= head + seq![' '] + rest);
            lemma_first_char_after(head, ' ', rest);
            assert(line.subrange(1, head.len() as int) =~= b);
            assert(line.skip(head.len() as int + 1) =~= rest);
        },
        None => {
            assert(line =~= rest);
        },
    }
}

/// The prefix prints as text from which `prefix_section` reads it back.
proof fn lemma_prefix_stage(prefix: Option<Seq<char>>, rest: Seq<char>)
    requires
        prefix matches Some(p) ==> no_char(p, ' '),
        prefix is None ==> !starts_with(rest, ':'),
    ensures
        crate::message::prefix_section(prefix_string(prefix) + rest) == (prefix, rest),
{
    let s1 = prefix_string(prefix) + rest;
    match prefix {
        Some(pr) => {
            let head = seq![':'] + pr;
            assert forall|i: int| 0 <= i < head.len() implies head[i] != ' ' by {
                if i > 0 {
                    assert(head[i] == pr[i - 1]);
                }
            }
            assert(s1 =~= head + seq![' '] + rest);
            lemma_first_char_after(head, ' ', rest);
            assert(s1.subrange(1, head.len() as int) =~= pr);
            assert(s1.skip(head.len() as int + 1) =~= rest);
        },
        None => {
            assert(s1 =~= rest);
        },
    }
}

/// Printing a well-formed message and reading the line back gives the same message.
pub proof fn law_print_then_read(m: MessageView)
    requires
        well_formed(m),
    ensures
        parse_message(message_string(m)) == Ok::<MessageView, crate::error::ProtocolErrorView>(m),
{
    let (w, a, sfx) = command_parts(m.command);
    let s = command_string(m.command) + seq!['\r', '\n'];
    lemma_command_round_trip(w, a, sfx);
    let s1 = prefix_string(m.prefix) + s;
    let line = message_string(m);
    assert(line =~= tags_string(m.tags) + s1);
    if m.tags is None && s1.len() > 0 {
        if m.prefix is Some {
            assert(s1[0] == ':');
        } else {
            assert(s1 =~= s);
        }
    }
    lemma_tags_stage(m.tags, s1);
    lemma_prefix_stage(m.prefix, s);
}

/// Reading the line that a well-formed message prints as, and printing what was read, gives
/// the same line.
pub proof fn law_read_then_print(m: MessageView)
    requires
        well_formed(m),
    ensures
        parse_message(message_string(m)) matches Ok(m2) && message_string(m2) == message_string(m),
{
    law_print_then_read(m);
}

/// A `PRIVMSG`, `NOTICE` or `QUIT` command is the one that the word, arguments and suffix it
/// prints with make again.
pub proof fn law_named_command_rebuilds(c: CommandView)
    requires
        !(c is Raw),
    ensures
        ({
            let (w, a, sfx) = command_parts(c);
            command_of(w, a, sfx) == c
        }),
{
    let (w, a, sfx) = command_parts(c);
    assert(crate::text::eq_ignore_ascii_case(w, w));
    match c {
        CommandView::PRIVMSG(t, msg) => {
            assert(a =~= seq![t]);
        },
        CommandView::NOTICE(t, msg) => {
            assert(!crate::text::eq_ignore_ascii_case(w, crate::command::privmsg_word()));
            assert(a =~= seq![t]);
        },
        CommandView::QUIT(msg) => {
            assert(!crate::text::eq_ignore_ascii_case(w, crate::command::privmsg_word()));
            assert(!crate::text::eq_ignore_ascii_case(w, crate::command::notice_word()));
        },
        CommandView::Raw(..) => {},
    }
}

/// The answer target of a message that is not a `PRIVMSG` or `NOTICE` sent to a channel is
/// the nickname of its source; that of one sent to a channel is the channel.
pub proof fn law_response_target(m: MessageView)
    ensures
        m.command matches CommandView::PRIVMSG(t, _) ==> (spec_is_channel_name(t)
            ==> response_target_of(m) == Some(t)),
        m.command matches CommandView::NOTICE(t, _) ==> (spec_is_channel_name(t)
            ==> response_target_of(m) == Some(t)),
        !(m.command matches CommandView::PRIVMSG(t, _) && spec_is_channel_name(t))
            && !(m.command matches CommandView::NOTICE(t, _) && spec_is_channel_name(t))
            ==> response_target_of(m) == source_nickname_of(m),
{
}

/// A line ending: `\n`, `\r` or `\r\n`.
pub open spec fn is_line_ending(e: Seq<char>) -> bool {
    e == seq!['\n'] || e == seq!['\r'] || e == seq!['\r', '\n']
}

/// `x` is empty or does not end in `\r` or `\n`.
pub open spec fn ends_without_line_ending(x: Seq<char>) -> bool {
    x.len() == 0 || (x[x.len() - 1] != '\r' && x[x.len() - 1] != '\n')
}

/// A line ending holds neither space nor `:` nor `!`.
proof fn lemma_line_ending_chars(e: Seq<char>)
    requires
        is_line_ending(e),
    ensures
        no_char(e, ' '),
        no_char(e, ':'),
        e.len() > 0,
        e[0] != '@' && e[0] != ':',
{
}

/// A tail of text without a line ending has none either.
proof fn lemma_skip_ends(x: Seq<char>, k: int)
    requires
        ends_without_line_ending(x),
        0 <= k <= x.len(),
    ensures
        ends_without_line_ending(x.skip(k)),
{
}

/// Reading the tag section of `x e` gives the tags of `x`; what follows is what follows in
/// `x`, with `e` after it, or in both cases nothing.
proof fn lemma_tags_section_ending(x: Seq<char>, e: Seq<char>)
    requires
        ends_without_line_ending(x),
        is_line_ending(e),
    ensures
        tags_section(x + e).0 == tags_section(x).0,
        ends_without_line_ending(tags_section(x).1),
        tags_section(x + e).1 == tags_section(x).1 + e || (tags_section(x + e).1
            == tags_section(x).1 && tags_section(x).1.len() == 0),
{
    lemma_line_ending_chars(e);
    let s = x + e;
    if x.len() == 0 {
        assert(s =~= e);
        assert(x + e =~= e);
    } else {
        assert(s[0] == x[0]);
        lemma_find_char_append(x, e, ' ');
        if starts_with(x, '@') {
            match find_char(x, ' ') {
                Some(i) => {
                    crate::text::lemma_find_char_first(x, ' ', i);
                    assert(is_first_char(x, ' ', i));
                    assert(s.subrange(1, i) =~= x.subrange(1, i));
                    assert(s.skip(i + 1) =~= x.skip(i + 1) + e);
                    lemma_skip_ends(x, i + 1);
                },
                None => {},
            }
        }
    }
}

/// Reading the prefix of `x e` gives the prefix of `x`; what follows is what follows in `x`,
/// with `e` after it, or in both cases nothing.
proof fn lemma_prefix_section_ending(x: Seq<char>, e: Seq<char>)
    requires
        ends_without_line_ending(x),
        is_line_ending(e),
    ensures
        prefix_section(x + e).0 == prefix_section(x).0,
        ends_without_line_ending(prefix_section(x).1),
        prefix_section(x + e).1 == prefix_section(x).1 + e || (prefix_section(x + e).1
            == prefix_section(x).1 && prefix_section(x).1.len() == 0),
{
    lemma_line_ending_chars(e);
    let s = x + e;
    if x.len() == 0 {
        assert(x + e =~= e);
    } else {
        assert(s[0] == x[0]);
        lemma_find_char_append(x, e, ' ');
        if starts_with(x, ':') {
            match find_char(x, ' ') {
                Some(i) => {
                    assert(is_first_char(x, ' ', i));
                    assert(s.subrange(1, i) =~= x.subrange(1, i));
                    assert(s.skip(i + 1) =~= x.skip(i + 1) + e);
                    lemma_skip_ends(x, i + 1);
                },
                None => {},
            }
        }
    }
}

/// The suffix and the command text of `x e` are those of `x`.
proof fn lemma_suffix_section_ending(x: Seq<char>, e: Seq<char>)
    requires
        ends_without_line_ending(x),
        is_line_ending(e),
    ensures
        suffix_section(x + e) == suffix_section(x),
{
    lemma_line_ending_chars(e);
    let s = x + e;
    assert(line_ending_len(x) == 0);
    assert(line_ending_len(s) == e.len());
    lemma_find_pair_append(x, e, ' ', ':');
    match crate::text::find_pair(x, ' ', ':') {
        Some(i) => {
            assert(is_first_pair(x, ' ', ':', i));
            assert(s.subrange(i + 2, s.len() - e.len()) =~= x.subrange(i + 2, x.len() as int));
            assert(s.take(i + 1) =~= x.take(i + 1));
        },
        None => {
            assert(s.take(s.len() - e.len()) =~= x.take(x.len() as int));
        },
    }
}

/// A line ending does not change what a line reads as: for every nonempty line `t` that does
/// not itself end in `\r` or `\n`, reading `t` followed by `\n`, `\r` or `\r\n` gives the
/// message that reading `t` gives, or the same error for the longer line.
pub proof fn law_line_ending_ignored(t: Seq<char>, e: Seq<char>)
    requires
        t.len() > 0,
        t[t.len() - 1] != '\r',
        t[t.len() - 1] != '\n',
        is_line_ending(e),
    ensures
        match parse_message(t) {
            Ok(m) => parse_message(t + e) == Ok::<MessageView, ProtocolErrorView>(m),
            Err(ProtocolErrorView::InvalidMessage { cause, .. }) => parse_message(t + e) == Err::<
                MessageView,
                ProtocolErrorView,
            >(ProtocolErrorView::InvalidMessage { string: t + e, cause }),
        },
{
    lemma_tags_section_ending(t, e);
    let r1 = tags_section(t).1;
    let r1e = tags_section(t + e).1;
    if r1e == r1 + e {
        lemma_prefix_section_ending(r1, e);
        let r2 = prefix_section(r1).1;
        let r2e = prefix_section(r1e).1;
        if r2e == r2 + e {
            lemma_suffix_section_ending(r2, e);
        }
    }
    assert((t + e).len() > 0);
}

/// The nickname of a source `n!rest`, where `n` holds no `!`, is `n`; of a source `n@rest`,
/// where `n` holds neither `!` nor `@` and `rest` holds no `!`, it is `n`; a source with
/// neither `!` nor `@` is a nickname when it holds no `.`, and has none when it holds one.
pub proof fn law_source_nickname(m: MessageView, n: Seq<char>, rest: Seq<char>)
    ensures
        m.prefix == Some(n + seq!['!'] + rest) && no_char(n, '!') ==> source_nickname_of(m)
            == Some(n),
        m.prefix == Some(n + seq!['@'] + rest) && no_char(n, '!') && no_char(n, '@') && no_char(
            rest,
            '!',
        ) ==> source_nickname_of(m) == Some(n),
        m.prefix == Some(n) && no_char(n, '!') && no_char(n, '@') ==> (source_nickname_of(m)
            == if no_char(n, '.') {
            Some(n)
        } else {
            None::<Seq<char>>
        }),
        m.prefix is None ==> source_nickname_of(m) is None,
{
    if m.prefix == Some(n + seq!['!'] + rest) && no_char(n, '!') {
        lemma_first_char_after(n, '!', rest);
        assert((n + seq!['!'] + rest).take(n.len() as int) =~= n);
    }
    if m.prefix == Some(n + seq!['@'] + rest) && no_char(n, '!') && no_char(n, '@') && no_char(
        rest,
        '!',
    ) {
        let p = n + seq!['@'] + rest;
        assert forall|j: int| 0 <= j < p.len() implies p[j] != '!' by {
            if j < n.len() {
                assert(p[j] == n[j]);
            } else if j > n.len() {
                assert(p[j] == rest[j - n.len() - 1]);
            }
        }
        lemma_find_char_none(p, '!');
        lemma_first_char_after(n, '@', rest);
        assert(p.take(n.len() as int) =~= n);
    }
    if m.prefix == Some(n) && no_char(n, '!') && no_char(n, '@') {
        lemma_find_char_none(n, '!');
        lemma_find_char_none(n, '@');
        if no_char(n, '.') {
            lemma_find_char_none(n, '.');
        } else {
            let k = choose|k: int| 0 <= k < n.len() && n[k] == '.';
            crate::text::lemma_find_char_complete(n, '.', k);
        }
    }
}

/// Whether a name is a channel depends on its first character alone: it is a channel when
/// that character is `#`, `&`, `+` or `!`.
pub proof fn law_channel_name(s: Seq<char>)
    ensures
        spec_is_channel_name(s) == (s.len() > 0 && (s[0] == '#' || s[0] == '&' || s[0] == '+'
            || s[0] == '!')),
        s.len() > 0 ==> forall|r: Seq<char>| #[trigger] spec_is_channel_name(seq![s[0]] + r)
            == spec_is_channel_name(s),
{
    assert forall|r: Seq<char>| s.len() > 0 implies #[trigger] spec_is_channel_name(
        seq![s[0]] + r,
    ) == spec_is_channel_name(s) by {
        assert((seq![s[0]] + r)[0] == s[0]);
    }
}

/// A message sent with `PRIVMSG` or `NOTICE` to a target whose first character is `#`, `&`,
/// `+` or `!` is answered in that target, whatever follows that character.
pub proof fn law_response_target_channel(m: MessageView, t: Seq<char>, text: Seq<char>)
    requires
        m.command == CommandView::PRIVMSG(t, text) || m.command == CommandView::NOTICE(t, text),
        t.len() > 0,
        t[0] == '#' || t[0] == '&' || t[0] == '+' || t[0] == '!',
    ensures
        response_target_of(m) == Some(t),
{
    law_channel_name(t);
}

/// A command word that is not `PRIVMSG`, `NOTICE` or `QUIT` without regard to ASCII case
/// keeps its parts unchanged in a raw command, whatever the arguments and suffix.
pub proof fn law_unknown_command_is_raw(w: Seq<char>, a: Seq<Seq<char>>, sfx: Option<Seq<char>>)
    requires
        !crate::text::eq_ignore_ascii_case(w, crate::command::privmsg_word()),
        !crate::text::eq_ignore_ascii_case(w, crate::command::notice_word()),
        !crate::text::eq_ignore_ascii_case(w, crate::command::quit_word()),
    ensures
        command_of(w, a, sfx) == CommandView::Raw(w, a, sfx),
        command_string(command_of(w, a, sfx)) == stringify(w, a, sfx),
{
}

/// A message made from a command alone prints as the command line followed by `\r\n`.
pub proof fn law_command_message_prints(c: CommandView)
    ensures
        message_string(MessageView { tags: None, prefix: None, command: c }) == command_string(c)
            + seq!['\r', '\n'],
{
    assert(message_string(MessageView { tags: None, prefix: None, command: c }) =~= command_string(c)
        + seq!['\r', '\n']);
}

} // verus!
