use vstd::prelude::*;

verus! {

#[verifier::external_type_specification]
#[verifier::external_body]
pub struct ExParseError(shell_words::ParseError);

/// The words of a command line under POSIX shell word splitting, or `None`
/// when the line cannot be split.
pub uninterp spec fn shell_split(s: Seq<char>) -> Option<Seq<Seq<char>>>;

/// The texts of a list of words.
pub open spec fn words_view(w: Seq<String>) -> Seq<Seq<char>> {
    w.map_values(|x: String| x@)
}

/// Relies on `shell_words::split`: splits a command line into words the
/// way a POSIX shell does; it fails (with `ParseError`) when the line
/// cannot be split.
#[verifier::external_body]
fn split_words(command: &str) -> (r: Result<Vec<String>, shell_words::ParseError>)
    ensures
        match r {
            Ok(w) => shell_split(command@) == Some(words_view(w@)),
            Err(_) => shell_split(command@) is None,
        },
{
    shell_words::split(command)
}

/// A command line taken apart: a program and its arguments.
#[derive(Debug)]
pub enum CommandLine {
    /// The line could not be split into words.
    Unparsable,
    /// The line holds no word.
    Empty,
    /// The first word is the program, the others its arguments.
    Run { program: String, args: Vec<String> },
}

/// Take split words apart: the first is the program, the rest its arguments.
pub fn command_from_words(words: Vec<String>) -> (c: CommandLine)
    ensures
        words@.len() == 0 <==> c is Empty,
        !(c is Unparsable),
        c matches CommandLine::Run { program, args } ==> program == words@[0] && args@
            == words@.drop_first(),
{
    let mut words = words;
    if words.len() == 0 {
        CommandLine::Empty
    } else {
        let ghost given = words@;
        let program = words.remove(0);
        proof {
            assert(words@ =~= given.drop_first());
        }
        CommandLine::Run { program, args: words }
    }
}

/// Split a command line with shell rules and take it apart.
pub fn parse_command(command: &str) -> (c: CommandLine)
    ensures
        c is Unparsable <==> shell_split(command@) is None,
        shell_split(command@) matches Some(w) ==> (w.len() == 0 <==> c is Empty),
        c matches CommandLine::Run { program, args } ==> shell_split(command@) == Some(
            seq![program@] + words_view(args@),
        ),
{
    match split_words(command) {
        Ok(words) => {
            let ghost w = words@;
            let c = command_from_words(words);
            proof {
                if c is Run {
                    assert(seq![c->program@] + words_view(c->args@) =~= words_view(w));
                }
            }
            c
        },
        Err(_) => CommandLine::Unparsable,
    }
}

} // verus!
