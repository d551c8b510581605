//! From a bound command line to the program and arguments to start.

use crate::text::strings_view;
use vstd::prelude::*;

verus! {

/// Why a command line names no program to start.
#[derive(Clone, Copy, Debug, PartialEq, Eq, Structural)]
pub enum LaunchError {
    /// A quote in the command line is never closed.
    MismatchedQuotes,
    /// The command line holds no word at all.
    EmptyCommand,
}

impl LaunchError {
    /// The reason in words, as a status line shows it.
    pub open spec fn spec_message(&self) -> Seq<char> {
        match *self {
            LaunchError::MismatchedQuotes => "Mismatched quotes"@,
            LaunchError::EmptyCommand => "Empty command"@,
        }
    }

    /// The reason in words, as a status line shows it.
    pub fn message(&self) -> (text: String)
        ensures
            text@ == self.spec_message(),
    {
        match self {
            LaunchError::MismatchedQuotes => "Mismatched quotes".to_owned(),
            LaunchError::EmptyCommand => "Empty command".to_owned(),
        }
    }
}

/// A program and the arguments it is started with.
#[derive(Debug, PartialEq, Eq)]
pub struct CommandLine {
    pub program: String,
    pub args: Vec<String>,
}

impl View for CommandLine {
    type V = (Seq<char>, Seq<Seq<char>>);

    /// The program, and the arguments in their order.
    open spec fn view(&self) -> (Seq<char>, Seq<Seq<char>>) {
        (self.program@, strings_view(self.args@))
    }
}

/// The words into which a shell splits a command line, quotes and
/// backslashes resolved; `None` where a quote is left open.
pub uninterp spec fn shell_words(line: Seq<char>) -> Option<Seq<Seq<char>>>;

#[verifier::external_type_specification]
#[verifier::external_body]
pub struct ExMismatchedQuotes(shellwords::MismatchedQuotes);

/// Calls `shellwords::split`. The contract claims that the outcome is a
/// function of the line's characters, and gives that function its name:
/// the words on success, no words where the split reports mismatched quotes.
#[verifier::external_body]
fn split_words(line: &str) -> (words: Result<Vec<String>, shellwords::MismatchedQuotes>)
    ensures
        match words {
            Ok(w) => shell_words(line@) == Some(strings_view(w@)),
            Err(_) => shell_words(line@) is None,
        },
{
    shellwords::split(line)
}

/// The command that a sequence of words stands for: the first word is the
/// program, the others are its arguments.
pub open spec fn command_of_words(words: Seq<Seq<char>>) -> Result<
    (Seq<char>, Seq<Seq<char>>),
    LaunchError,
> {
    if words.len() == 0 {
        Err(LaunchError::EmptyCommand)
    } else {
        Ok((words[0], words.drop_first()))
    }
}

/// The command that a command line stands for.
pub open spec fn command_of_line(line: Seq<char>) -> Result<
    (Seq<char>, Seq<Seq<char>>),
    LaunchError,
> {
    match shell_words(line) {
        Some(words) => command_of_words(words),
        None => Err(LaunchError::MismatchedQuotes),
    }
}

impl CommandLine {
    /// Takes the first word as the program and the rest as its arguments.
    pub fn from_words(words: Vec<String>) -> (command: Result<CommandLine, LaunchError>)
        ensures
            match command {
                Ok(c) => command_of_words(strings_view(words@)) == Ok::<_, LaunchError>(c@),
                Err(e) => command_of_words(strings_view(words@)) == Err::<
                    (Seq<char>, Seq<Seq<char>>),
                    _,
                >(e),
            },
    {
        let mut words = words;
        if words.len() == 0 {
            return Err(LaunchError::EmptyCommand);
        }
        let ghost all = words@;
        let program = words.remove(0);
        let command = CommandLine { program, args: words };
        assert(strings_view(command.args@) =~= strings_view(all).drop_first());
        Ok(command)
    }

    /// Splits a command line as a shell would and reads the words as a
    /// command.
    pub fn parse(line: &str) -> (command: Result<CommandLine, LaunchError>)
        ensures
            match command {
                Ok(c) => command_of_line(line@) == Ok::<_, LaunchError>(c@),
                Err(e) => command_of_line(line@) == Err::<(Seq<char>, Seq<Seq<char>>), _>(e),
            },
    {
        match split_words(line) {
            Ok(words) => CommandLine::from_words(words),
            Err(_) => Err(LaunchError::MismatchedQuotes),
        }
    }
}

} // verus!
