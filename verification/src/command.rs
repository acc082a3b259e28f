//! IRC commands: recognising them from their parts and printing them.
use vstd::prelude::*;
use crate::error::MessageParseError;
use crate::text::{chars_of, eq_ignore_ascii_case, eq_ignore_ascii_case_chars, join, lemma_join_push};

verus! {

/// A protocol command. Commands that are not recognised, or whose parts do not have the shape
/// that the command asks for, are kept as `Raw`: the command word, its arguments and the
/// optional trailing argument (the suffix).
#[derive(Clone, PartialEq, Debug)]
pub enum Command {
    /// `PRIVMSG target :text`
    PRIVMSG(String, String),
    /// `NOTICE target :text`
    NOTICE(String, String),
    /// `QUIT [:message]`
    QUIT(Option<String>),
    /// Any other command: word, arguments, suffix.
    Raw(String, Vec<String>, Option<String>),
}

/// The mathematical value of a `Command`.
pub enum CommandView {
    PRIVMSG(Seq<char>, Seq<char>),
    NOTICE(Seq<char>, Seq<char>),
    QUIT(Option<Seq<char>>),
    Raw(Seq<char>, Seq<Seq<char>>, Option<Seq<char>>),
}

/// The characters of each string.
pub open spec fn strings_view(v: Seq<String>) -> Seq<Seq<char>> {
    v.map_values(|a: String| a@)
}

/// The characters of each string slice.
pub open spec fn strs_view(v: Seq<&str>) -> Seq<Seq<char>> {
    v.map_values(|a: &str| a@)
}

/// The characters of an optional string.
pub open spec fn opt_view(o: Option<String>) -> Option<Seq<char>> {
    match o {
        Some(s) => Some(s@),
        None => None,
    }
}

/// The characters of an optional string slice.
pub open spec fn opt_str_view(o: Option<&str>) -> Option<Seq<char>> {
    match o {
        Some(s) => Some(s@),
        None => None,
    }
}

impl View for Command {
    type V = CommandView;

    open spec fn view(&self) -> CommandView {
        match self {
            Command::PRIVMSG(t, m) => CommandView::PRIVMSG(t@, m@),
            Command::NOTICE(t, m) => CommandView::NOTICE(t@, m@),
            Command::QUIT(m) => CommandView::QUIT(opt_view(*m)),
            Command::Raw(c, a, s) => CommandView::Raw(c@, strings_view(a@), opt_view(*s)),
        }
    }
}

/// The word `PRIVMSG`.
pub open spec fn privmsg_word() -> Seq<char> {
    seq!['P', 'R', 'I', 'V', 'M', 'S', 'G']
}

/// The word `NOTICE`.
pub open spec fn notice_word() -> Seq<char> {
    seq!['N', 'O', 'T', 'I', 'C', 'E']
}

/// The word `QUIT`.
pub open spec fn quit_word() -> Seq<char> {
    seq!['Q', 'U', 'I', 'T']
}

/// The command that the word `cmd`, the arguments `args` and the suffix make. A word is
/// recognised without regard to ASCII case; an argument list of the wrong shape leaves the
/// command raw.
pub open spec fn command_of(
    cmd: Seq<char>,
    args: Seq<Seq<char>>,
    suffix: Option<Seq<char>>,
) -> CommandView {
    if eq_ignore_ascii_case(cmd, privmsg_word()) && suffix is Some && args.len() == 1 {
        CommandView::PRIVMSG(args[0], suffix->0)
    } else if eq_ignore_ascii_case(cmd, notice_word()) && suffix is Some && args.len() == 1 {
        CommandView::NOTICE(args[0], suffix->0)
    } else if eq_ignore_ascii_case(cmd, quit_word()) && args.len() == 0 {
        CommandView::QUIT(suffix)
    } else {
        CommandView::Raw(cmd, args, suffix)
    }
}

/// A command line: the word, then the arguments joined by spaces (a space before them when
/// they print as something), then ` :` and the suffix when there is one.
pub open spec fn stringify(
    cmd: Seq<char>,
    args: Seq<Seq<char>>,
    suffix: Option<Seq<char>>,
) -> Seq<char> {
    let a = join(args, seq![' ']);
    let sp = if a.len() == 0 {
        Seq::<char>::empty()
    } else {
        seq![' ']
    };
    match suffix {
        Some(m) => cmd + sp + a + seq![' ', ':'] + m,
        None => cmd + sp + a,
    }
}

/// The word, the arguments and the suffix that a command prints as.
pub open spec fn command_parts(c: CommandView) -> (Seq<char>, Seq<Seq<char>>, Option<Seq<char>>) {
    match c {
        CommandView::PRIVMSG(t, m) => (privmsg_word(), seq![t], Some(m)),
        CommandView::NOTICE(t, m) => (notice_word(), seq![t], Some(m)),
        CommandView::QUIT(m) => (quit_word(), seq![], m),
        CommandView::Raw(c, a, s) => (c, a, s),
    }
}

/// How a command prints.
pub open spec fn command_string(c: CommandView) -> Seq<char> {
    let (w, a, s) = command_parts(c);
    stringify(w, a, s)
}

/// The characters of `"PRIVMSG"`, `"NOTICE"` and `"QUIT"` and the other literals used here.
proof fn lemma_literals()
    ensures
        "PRIVMSG"@ == privmsg_word(),
        "NOTICE"@ == notice_word(),
        "QUIT"@ == quit_word(),
        " "@ == seq![' '],
        " :"@ == seq![' ', ':'],
{
    reveal_strlit("PRIVMSG");
    reveal_strlit("NOTICE");
    reveal_strlit("QUIT");
    reveal_strlit(" ");
    reveal_strlit(" :");
    assert("PRIVMSG"@ =~= privmsg_word());
    assert("NOTICE"@ =~= notice_word());
    assert("QUIT"@ =~= quit_word());
    assert(" "@ =~= seq![' ']);
    assert(" :"@ =~= seq![' ', ':']);
}

/// Owned copies of the given string slices.
fn to_owned_all(v: &Vec<&str>) -> (r: Vec<String>)
    ensures
        strings_view(r@) == strs_view(v@),
{
    let mut r: Vec<String> = Vec::new();
    let mut i: usize = 0;
    while i < v.len()
        invariant
            i <= v.len(),
            strings_view(r@) == strs_view(v@.take(i as int)),
        decreases v.len() - i,
    {
        r.push(v[i].to_owned());
        i = i + 1;
        assert(strs_view(v@.take(i as int)) =~= strs_view(v@.take(i - 1)).push(v@[i - 1]@));
        assert(strings_view(r@) =~= strings_view(r@.drop_last()).push(r@.last()@));
    }
    assert(v@.take(v.len() as int) =~= v@);
    r
}

/// Borrowed slices of the given strings.
fn as_strs(v: &Vec<String>) -> (r: Vec<&str>)
    ensures
        strs_view(r@) == strings_view(v@),
{
    let mut r: Vec<&str> = Vec::new();
    let mut i: usize = 0;
    while i < v.len()
        invariant
            i <= v.len(),
            strs_view(r@) == strings_view(v@.take(i as int)),
        decreases v.len() - i,
    {
        r.push(v[i].as_str());
        i = i + 1;
        assert(strings_view(v@.take(i as int)) =~= strings_view(v@.take(i - 1)).push(v@[i - 1]@));
        assert(strs_view(r@) =~= strs_view(r@.drop_last()).push(r@.last()@));
    }
    assert(v@.take(v.len() as int) =~= v@);
    r
}

/// The command line for a word, arguments and suffix.
fn stringify_exec(cmd: &str, args: &Vec<&str>, suffix: Option<&str>) -> (r: String)
    ensures
        r@ == stringify(cmd@, strs_view(args@), opt_str_view(suffix)),
{
    proof {
        lemma_literals();
    }
    let ghost ps = strs_view(args@);
    let mut a = String::new();
    let mut i: usize = 0;
    while i < args.len()
        invariant
            i <= args.len(),
            ps == strs_view(args@),
            a@ == join(ps.take(i as int), seq![' ']),
        decreases args.len() - i,
    {
        proof {
            lemma_literals();
        }
        if i > 0 {
            a.append(" ");
        }
        a.append(args[i]);
        proof {
            assert(ps.take(i + 1) =~= ps.take(i as int).push(args@[i as int]@));
            lemma_join_push(ps.take(i as int), args@[i as int]@, seq![' ']);
        }
        i = i + 1;
    }
    assert(ps.take(args.len() as int) =~= ps);
    let mut out = String::new();
    out.append(cmd);
    if !a.as_str().is_empty() {
        out.append(" ");
    }
    out.append(a.as_str());
    match suffix {
        Some(m) => {
            out.append(" :");
            out.append(m);
        },
        None => {},
    }
    assert(out@ =~= stringify(cmd@, ps, opt_str_view(suffix)));
    out
}

impl Command {
    /// Builds the command that the word `cmd`, the arguments `args` and the suffix make.
    pub fn new(cmd: &str, args: Vec<&str>, suffix: Option<&str>) -> (r: Result<
        Command,
        MessageParseError,
    >)
        ensures
            r matches Ok(c) && c@ == command_of(cmd@, strs_view(args@), opt_str_view(suffix)),
    {
        proof {
            lemma_literals();
        }
        let word = chars_of(cmd);
        let privmsg = chars_of("PRIVMSG");
        let notice = chars_of("NOTICE");
        let quit = chars_of("QUIT");
        let ghost av = strs_view(args@);
        let c = if eq_ignore_ascii_case_chars(&word, &privmsg) && suffix.is_some() && args.len()
            == 1 {
            Command::PRIVMSG(args[0].to_owned(), suffix.unwrap().to_owned())
        } else if eq_ignore_ascii_case_chars(&word, &notice) && suffix.is_some() && args.len()
            == 1 {
            Command::NOTICE(args[0].to_owned(), suffix.unwrap().to_owned())
        } else if eq_ignore_ascii_case_chars(&word, &quit) && args.len() == 0 {
            Command::QUIT(
                match suffix {
                    Some(m) => Some(m.to_owned()),
                    None => None,
                },
            )
        } else {
            Command::Raw(
                cmd.to_owned(),
                to_owned_all(&args),
                match suffix {
                    Some(m) => Some(m.to_owned()),
                    None => None,
                },
            )
        };
        Ok(c)
    }

    /// The command line, as the protocol writes it (without the line ending).
    pub fn to_string(&self) -> (r: String)
        ensures
            r@ == command_string(self@),
    {
        proof {
            lemma_literals();
        }
        match self {
            Command::PRIVMSG(t, m) => {
                let args = vec![t.as_str()];
                assert(strs_view(args@) =~= seq![t@]);
                stringify_exec("PRIVMSG", &args, Some(m.as_str()))
            },
            Command::NOTICE(t, m) => {
                let args = vec![t.as_str()];
                assert(strs_view(args@) =~= seq![t@]);
                stringify_exec("NOTICE", &args, Some(m.as_str()))
            },
            Command::QUIT(m) => {
                let args: Vec<&str> = Vec::new();
                assert(strs_view(args@) =~= Seq::<Seq<char>>::empty());
                let s = match m {
                    Some(x) => Some(x.as_str()),
                    None => None,
                };
                stringify_exec("QUIT", &args, s)
            },
            Command::Raw(c, a, s) => {
                let args = as_strs(a);
                let s2 = match s {
                    Some(x) => Some(x.as_str()),
                    None => None,
                };
                stringify_exec(c.as_str(), &args, s2)
            },
        }
    }
}

} // verus!
