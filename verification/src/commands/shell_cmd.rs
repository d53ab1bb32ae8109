use std::borrow::Cow;
use vstd::prelude::*;
use vstd::string::*;
use vstd::utf8::*;

use super::Cmd;
use crate::protocol::wire::{decode_text, parse_len, spec_parse_len};

verus! {

/// A text in double quotes.
pub open spec fn quoted(s: Seq<char>) -> Seq<char> {
    seq!['"'] + s + seq!['"']
}

/// Every argument in double quotes, separated by single spaces.
pub open spec fn quoted_words(args: Seq<Seq<char>>) -> Seq<char>
    decreases args.len(),
{
    if args.len() == 0 {
        Seq::empty()
    } else if args.len() == 1 {
        quoted(args[0])
    } else {
        quoted_words(args.drop_last()) + seq![' '] + quoted(args.last())
    }
}

/// The arguments of a shell command as they are written after it, one word
/// each: nothing for none, the argument itself for one, and for more, every
/// argument in double quotes, separated by single spaces.
pub open spec fn join_args(args: Seq<Seq<char>>) -> Seq<char> {
    if args.len() == 0 {
        Seq::empty()
    } else if args.len() == 1 {
        args[0]
    } else {
        quoted_words(args)
    }
}

/// The texts of a list of arguments.
pub open spec fn arg_texts(args: Seq<Cow<'static, str>>) -> Seq<Seq<char>> {
    args.map_values(|a: Cow<'static, str>| a@)
}

/// A command and its arguments, as a shell line: the command, a space, and
/// the joined arguments.
pub open spec fn shell_line(cmd: Seq<char>, args: Seq<Seq<char>>) -> Seq<char> {
    cmd + seq![' '] + join_args(args)
}

/// A command run through the `shell:` service.
pub struct ShellCmd<const WITH_RESP: bool> {
    pub(crate) cmd: Cow<'static, str>,
    pub(crate) args: Vec<Cow<'static, str>>,
}

/// The text of a `Cow<str>`.
pub fn cow_str<'a>(c: &'a Cow<'static, str>) -> (r: &'a str)
    ensures
        r@ == c@,
{
    match c {
        Cow::Borrowed(b) => *b,
        Cow::Owned(o) => o.as_str(),
    }
}

/// Joins arguments as `join_args` says.
pub fn join_arg_list(args: &Vec<Cow<'static, str>>) -> (r: String)
    ensures
        r@ == join_args(arg_texts(args@)),
{
    let ghost texts = arg_texts(args@);
    let mut acc = String::new();
    if args.len() == 0 {
        assert(texts.len() == 0);
        return acc;
    }
    if args.len() == 1 {
        acc.append(cow_str(&args[0]));
        return acc;
    }
    acc.append("\"");
    acc.append(cow_str(&args[0]));
    acc.append("\"");
    proof {
        reveal_strlit("\"");
        assert(texts.take(1) =~= seq![texts[0]]);
        assert(acc@ =~= quoted(texts[0]));
    }
    let mut i: usize = 1;
    while i < args.len()
        invariant
            1 <= i <= args.len(),
            texts == arg_texts(args@),
            acc@ == quoted_words(texts.take(i as int)),
        decreases args.len() - i,
    {
        let ghost before = acc@;
        acc.append(" \"");
        acc.append(cow_str(&args[i]));
        acc.append("\"");
        proof {
            reveal_strlit("\"");
            reveal_strlit(" \"");
            let t = texts.take(i + 1);
            assert(t.drop_last() =~= texts.take(i as int));
            assert(t.last() == args@[i as int]@);
            assert(acc@ =~= quoted_words(t.drop_last()) + seq![' '] + quoted(t.last()));
        }
        i = i + 1;
    }
    assert(texts.take(args.len() as int) =~= texts);
    acc
}

impl<const WITH_RESP: bool> ShellCmd<WITH_RESP> {
    /// The command run.
    pub closed spec fn command(&self) -> Seq<char> {
        self.cmd@
    }

    /// The arguments given to it, in order.
    pub closed spec fn arguments(&self) -> Seq<Seq<char>> {
        arg_texts(self.args@)
    }

    /// The command line: the command, a space, and the joined arguments.
    pub fn line(&self) -> (r: String)
        ensures
            r@ == shell_line(self.command(), self.arguments()),
    {
        let mut out = String::new();
        out.append(cow_str(&self.cmd));
        out.append(" ");
        let joined = join_arg_list(&self.args);
        out.append(joined.as_str());
        proof {
            reveal_strlit(" ");
        }
        assert(out@ =~= shell_line(self.command(), self.arguments()));
        out
    }

    /// Whether a reply body follows the `OKAY`.
    pub fn expects_resp() -> (r: bool)
        ensures
            r == WITH_RESP,
    {
        WITH_RESP
    }
}

impl<const WITH_RESP: bool> Cmd for ShellCmd<WITH_RESP> {
    open spec fn cmd_text(&self) -> Seq<char> {
        "shell:"@ + shell_line(self.command(), self.arguments())
    }

    fn cmd(self) -> (r: Cow<'static, str>) {
        let line = self.line();
        let mut out = String::new();
        out.append("shell:");
        out.append(line.as_str());
        Cow::Owned(out)
    }
}

/// How long the text reply of a shell command is, read from its four-byte
/// header; `None` when the header is not hexadecimal (the reply then is `None`).
pub fn text_resp_len(header: [u8; 4]) -> (r: Option<usize>)
    ensures
        r == (match spec_parse_len(header@) {
            Some(n) => Some(n as usize),
            None => None::<usize>,
        }),
{
    match parse_len(header) {
        Some(n) => Some(n as usize),
        None => None,
    }
}

/// The text reply of a shell command, from the body that followed its header.
pub fn text_resp(body: &[u8]) -> (r: Option<String>)
    requires
        valid_utf8(body@),
    ensures
        r matches Some(s) && s@ == decode_utf8(body@),
{
    Some(decode_text(body))
}

/// Argument law, few arguments: none give nothing, one is written as it is,
/// two are each written in double quotes with a space between.
pub proof fn lemma_join_few(x: Seq<char>, y: Seq<char>)
    ensures
        join_args(Seq::empty()) == Seq::<char>::empty(),
        join_args(seq![x]) == x,
        join_args(seq![x, y]) == seq!['"'] + x + seq!['"', ' ', '"'] + y + seq!['"'],
{
    let t = seq![x, y];
    assert(t.drop_last() =~= seq![x]);
    assert(t.last() == y);
    assert(quoted_words(seq![x]) == quoted(x));
    assert(quoted_words(t) == quoted_words(t.drop_last()) + seq![' '] + quoted(t.last()));
    assert(join_args(t) =~= seq!['"'] + x + seq!['"', ' ', '"'] + y + seq!['"']);
}

/// Argument law, adding an argument: with at least two arguments, one more
/// is written after the others as a space and the argument in double
/// quotes, so every argument, in order, is its own word of the line.
pub proof fn lemma_join_push(args: Seq<Seq<char>>, a: Seq<char>)
    requires
        args.len() >= 2,
    ensures
        join_args(args.push(a)) == join_args(args) + seq![' ', '"'] + a + seq!['"'],
{
    let t = args.push(a);
    assert(t.drop_last() =~= args);
    assert(join_args(t) =~= join_args(args) + seq![' ', '"'] + a + seq!['"']);
}

/// Command-line law: a shell command sends `shell:`, its command, a space,
/// and its joined arguments.
pub proof fn lemma_shell_text<const R: bool>(c: ShellCmd<R>)
    ensures
        c.cmd_text() == seq!['s', 'h', 'e', 'l', 'l', ':'] + c.command() + seq![' '] + join_args(
            c.arguments(),
        ),
{
    reveal_strlit("shell:");
    assert(c.cmd_text() =~= seq!['s', 'h', 'e', 'l', 'l', ':'] + c.command() + seq![' ']
        + join_args(c.arguments()));
}

/// Builds a `ShellCmd` one argument at a time.
pub struct ShellCmdBuilder<const WITH_RESP: bool> {
    inner: ShellCmd<WITH_RESP>,
}

impl ShellCmdBuilder<false> {
    /// Starts a command whose reply carries no body.
    pub fn with_no_resp(cmd: Cow<'static, str>) -> (r: ShellCmdBuilder<false>)
        ensures
            r.command() == cmd@,
            r.arguments() == Seq::<Seq<char>>::empty(),
    {
        ShellCmdBuilder::<false>::new(cmd)
    }
}

impl ShellCmdBuilder<true> {
    /// Starts a command whose reply carries a text body.
    pub fn with_resp(cmd: Cow<'static, str>) -> (r: ShellCmdBuilder<true>)
        ensures
            r.command() == cmd@,
            r.arguments() == Seq::<Seq<char>>::empty(),
    {
        ShellCmdBuilder::<true>::new(cmd)
    }
}

impl<const WITH_RESP: bool> ShellCmdBuilder<WITH_RESP> {
    /// The command being built.
    pub closed spec fn command(&self) -> Seq<char> {
        self.inner.command()
    }

    /// The arguments added so far, in order.
    pub closed spec fn arguments(&self) -> Seq<Seq<char>> {
        self.inner.arguments()
    }

    fn new(cmd: Cow<'static, str>) -> (r: Self)
        ensures
            r.command() == cmd@,
            r.arguments() == Seq::<Seq<char>>::empty(),
    {
        let r = Self { inner: ShellCmd { cmd: cmd, args: Vec::new() } };
        assert(r.arguments() =~= Seq::<Seq<char>>::empty());
        r
    }

    /// Adds an argument after those already given.
    pub fn arg(self, arg: Cow<'static, str>) -> (r: Self)
        ensures
            r.command() == self.command(),
            r.arguments() == self.arguments().push(arg@),
    {
        let ShellCmdBuilder { inner: ShellCmd { cmd, args } } = self;
        let mut args = args;
        let ghost before = args@;
        args.push(arg);
        let r = ShellCmdBuilder { inner: ShellCmd { cmd, args } };
        assert(arg_texts(args@) =~= arg_texts(before).push(arg@));
        r
    }

    /// The command built.
    pub fn build(self) -> (r: ShellCmd<WITH_RESP>)
        ensures
            r.command() == self.command(),
            r.arguments() == self.arguments(),
    {
        self.inner
    }
}

} // verus!
