//! What the hooks read from the configuration, and the command lines they
//! make of it.
//!
//! Arguments are split at every single space and nowhere else. There is no
//! quoting: an argument cannot hold a space, and two spaces in a row enclose
//! an empty argument.

use vstd::prelude::*;
use vstd::string::*;

verus! {

/// The tokens of a text of which `current` has been read into the token at
/// hand and `rest` is still to come.
pub open spec fn tokens_after(current: Seq<char>, rest: Seq<char>) -> Seq<Seq<char>>
    decreases rest.len(),
{
    if rest.len() == 0 {
        seq![current]
    } else if rest[0] == ' ' {
        seq![current] + tokens_after(Seq::empty(), rest.drop_first())
    } else {
        tokens_after(current.push(rest[0]), rest.drop_first())
    }
}

/// The arguments that an argument string stands for: none for the empty
/// string, else the pieces between its spaces.
pub open spec fn argument_tokens(args: Seq<char>) -> Seq<Seq<char>> {
    if args.len() == 0 {
        Seq::empty()
    } else {
        tokens_after(Seq::empty(), args)
    }
}

/// The tokens with one space between each two.
pub open spec fn joined(tokens: Seq<Seq<char>>) -> Seq<char>
    decreases tokens.len(),
{
    if tokens.len() == 0 {
        Seq::empty()
    } else if tokens.len() == 1 {
        tokens[0]
    } else {
        tokens[0] + seq![' '] + joined(tokens.drop_first())
    }
}

/// Whether a text holds no space.
pub open spec fn space_free(text: Seq<char>) -> bool {
    forall|i: int| 0 <= i < text.len() ==> text[i] != ' '
}

proof fn lemma_tokens_after(current: Seq<char>, rest: Seq<char>)
    requires
        space_free(current),
    ensures
        tokens_after(current, rest).len() >= 1,
        joined(tokens_after(current, rest)) == current + rest,
        forall|k: int|
            0 <= k < tokens_after(current, rest).len() ==> space_free(
                #[trigger] tokens_after(current, rest)[k],
            ),
    decreases rest.len(),
{
    let tokens = tokens_after(current, rest);
    if rest.len() == 0 {
        assert(current + rest == current);
    } else if rest[0] == ' ' {
        let tail = tokens_after(Seq::empty(), rest.drop_first());
        lemma_tokens_after(Seq::empty(), rest.drop_first());
        assert(tokens == seq![current] + tail);
        assert(tokens[0] == current);
        assert(tokens.drop_first() == tail);
        assert(Seq::<char>::empty() + rest.drop_first() == rest.drop_first());
        assert(current + seq![' '] + rest.drop_first() == current + rest);
        assert forall|k: int| 0 <= k < tokens.len() implies space_free(#[trigger] tokens[k]) by {
            if k > 0 {
                assert(tokens[k] == tail[k - 1]);
            }
        }
    } else {
        lemma_tokens_after(current.push(rest[0]), rest.drop_first());
        assert(current.push(rest[0]) + rest.drop_first() == current + rest);
    }
}

/// Splitting loses nothing and splits at every space: the arguments joined by
/// single spaces are the argument string again, and no argument holds a space.
pub proof fn lemma_arguments_join_back(args: Seq<char>)
    ensures
        joined(argument_tokens(args)) == args,
        forall|k: int|
            0 <= k < argument_tokens(args).len() ==> space_free(#[trigger] argument_tokens(args)[k]),
        args.len() > 0 ==> argument_tokens(args).len() >= 1,
{
    if args.len() > 0 {
        lemma_tokens_after(Seq::empty(), args);
        assert(Seq::<char>::empty() + args == args);
    }
}

/// A program to run and the arguments to hand it.
#[derive(Debug, PartialEq, Eq)]
pub struct CommandLine {
    pub program: String,
    pub arguments: Vec<String>,
}

/// What a [`CommandLine`] holds.
pub struct Command {
    pub program: Seq<char>,
    pub arguments: Seq<Seq<char>>,
}

impl View for CommandLine {
    type V = Command;

    open spec fn view(&self) -> Command {
        Command { program: self.program@, arguments: self.arguments.deep_view() }
    }
}

/// The part of the configuration that the hooks read.
#[derive(Debug, PartialEq, Eq)]
pub struct GeneralConfig {
    /// The terminal emulator: its program and its argument string.
    pub terminal: (String, String),
    /// The application launcher: its program, which takes no arguments.
    pub launcher: String,
}

/// Splits an argument string into arguments.
pub fn split_arguments(args: &str) -> (r: Vec<String>)
    ensures
        r.deep_view() == argument_tokens(args@),
{
    broadcast use vstd::string::group_string_axioms;

    let mut tokens: Vec<String> = Vec::new();
    let n = args.unicode_len();
    if n == 0 {
        assert(tokens.deep_view() =~= argument_tokens(args@));
        return tokens;
    }
    let mut start: usize = 0;
    let mut at: usize = 0;
    assert(args@.subrange(0, 0) =~= Seq::<char>::empty());
    assert(args@.skip(0) =~= args@);
    assert(tokens.deep_view() + tokens_after(Seq::empty(), args@) =~= tokens_after(
        Seq::empty(),
        args@,
    ));
    let chars = args.chars();
    for c in it: chars
        invariant
            it.seq() == args@,
            n == args@.len(),
            at == it.index(),
            start <= at <= n,
            argument_tokens(args@) == tokens.deep_view() + tokens_after(
                args@.subrange(start as int, at as int),
                args@.skip(at as int),
            ),
    {
        let ghost current = args@.subrange(start as int, at as int);
        let ghost rest = args@.skip(at as int);
        let ghost before = tokens.deep_view();
        assert(rest.len() > 0 && rest[0] == c);
        assert(rest.drop_first() =~= args@.skip(at + 1));
        if c == ' ' {
            let token = String::from_str(args.substring_char(start, at));
            tokens.push(token);
            assert(tokens.deep_view() =~= before.push(current));
            assert(before + (seq![current] + tokens_after(Seq::empty(), rest.drop_first()))
                =~= before.push(current) + tokens_after(Seq::empty(), rest.drop_first()));
            start = at + 1;
            assert(args@.subrange(start as int, at + 1) =~= Seq::<char>::empty());
        } else {
            assert(current.push(c) =~= args@.subrange(start as int, at + 1));
        }
        at = at + 1;
    }
    let ghost current = args@.subrange(start as int, at as int);
    let ghost before = tokens.deep_view();
    let token = String::from_str(args.substring_char(start, at));
    tokens.push(token);
    assert(tokens.deep_view() =~= before.push(current));
    assert(before + seq![current] =~= before.push(current));
    tokens
}

/// The command that starts the configured terminal emulator.
pub fn terminal_command(config: &GeneralConfig) -> (r: CommandLine)
    ensures
        r@.program == config.terminal.0@,
        r@.arguments == argument_tokens(config.terminal.1@),
{
    CommandLine {
        program: config.terminal.0.clone(),
        arguments: split_arguments(config.terminal.1.as_str()),
    }
}

/// The command that starts the configured launcher: the program alone.
pub fn launcher_command(config: &GeneralConfig) -> (r: CommandLine)
    ensures
        r@.program == config.launcher@,
        r@.arguments == Seq::<Seq<char>>::empty(),
{
    let r = CommandLine { program: config.launcher.clone(), arguments: Vec::new() };
    assert(r.arguments.deep_view() =~= Seq::<Seq<char>>::empty());
    r
}

} // verus!
