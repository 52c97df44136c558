//! What is typed at the prompt, and what is said to it.
use vstd::prelude::*;

use crate::error::{KvsError, KvsErrorView};
use crate::network::protocol::{
    law_response_round_trip, received, reply_to_get, reply_to_write, Response, ResponseView,
};
use crate::text::{
    blank, chars_of, is_space, is_word, law_first_word, law_no_words, law_three_words, law_trimmed,
    law_two_words, next_word, same_text, starts_blank, trim, trimmed, words,
};

verus! {

/// A command that was typed.
#[derive(Debug, PartialEq, Eq)]
pub enum ReplCommand<'a> {
    Put { key: &'a str, value: &'a str },
    Get { key: &'a str },
    Rm { key: &'a str },
}

/// The view of a [`ReplCommand`].
pub enum ReplCommandView {
    Put { key: Seq<char>, value: Seq<char> },
    Get { key: Seq<char> },
    Rm { key: Seq<char> },
}

impl<'a> View for ReplCommand<'a> {
    type V = ReplCommandView;

    open spec fn view(&self) -> ReplCommandView {
        match self {
            ReplCommand::Put { key, value } => ReplCommandView::Put { key: key@, value: value@ },
            ReplCommand::Get { key } => ReplCommandView::Get { key: key@ },
            ReplCommand::Rm { key } => ReplCommandView::Rm { key: key@ },
        }
    }
}

/// What is wrong with a line that is no command.
#[derive(Debug, PartialEq, Eq)]
pub enum Mistake<'a> {
    /// There is no word on it.
    Nothing,
    /// The command lacks an argument: how it is used.
    Usage(&'static str),
    /// There is no such command.
    Unknown(&'a str),
}

/// The view of a [`Mistake`].
pub enum MistakeView {
    Nothing,
    Usage(Seq<char>),
    Unknown(Seq<char>),
}

impl<'a> View for Mistake<'a> {
    type V = MistakeView;

    open spec fn view(&self) -> MistakeView {
        match self {
            Mistake::Nothing => MistakeView::Nothing,
            Mistake::Usage(text) => MistakeView::Usage(text@),
            Mistake::Unknown(word) => MistakeView::Unknown(word@),
        }
    }
}

/// The command that the words of a line make. Words behind the arguments do
/// not matter.
pub open spec fn command_in(words: Seq<Seq<char>>) -> Result<ReplCommandView, MistakeView> {
    if words.len() == 0 {
        Err(MistakeView::Nothing)
    } else if words[0] == "set"@ {
        if words.len() >= 3 {
            Ok(ReplCommandView::Put { key: words[1], value: words[2] })
        } else {
            Err(MistakeView::Usage("Usage: set <KEY> <VALUE>"@))
        }
    } else if words[0] == "get"@ {
        if words.len() >= 2 {
            Ok(ReplCommandView::Get { key: words[1] })
        } else {
            Err(MistakeView::Usage("Usage: get <KEY>"@))
        }
    } else if words[0] == "rm"@ {
        if words.len() >= 2 {
            Ok(ReplCommandView::Rm { key: words[1] })
        } else {
            Err(MistakeView::Usage("Usage: rm <KEY>"@))
        }
    } else {
        Err(MistakeView::Unknown(words[0]))
    }
}

/// Reads a line as a command, or says what is wrong with it.
pub fn read_command<'a>(input: &'a str) -> (res: Result<ReplCommand<'a>, Mistake<'a>>)
    ensures
        match command_in(words(input@, 0)) {
            Ok(command) => res is Ok && res->Ok_0@ == command,
            Err(mistake) => res is Err && res->Err_0@ == mistake,
        },
{
    let chars: Vec<char> = chars_of(input);
    let (command, end) = match next_word(input, &chars, 0) {
        Some(word) => word,
        None => return Err(Mistake::Nothing),
    };
    let first = next_word(input, &chars, end);
    if same_text(command, "set") {
        if let Some((key, end)) = first {
            if let Some((value, _)) = next_word(input, &chars, end) {
                return Ok(ReplCommand::Put { key, value });
            }
        }
        Err(Mistake::Usage("Usage: set <KEY> <VALUE>"))
    } else if same_text(command, "get") {
        match first {
            Some((key, _)) => Ok(ReplCommand::Get { key }),
            None => Err(Mistake::Usage("Usage: get <KEY>")),
        }
    } else if same_text(command, "rm") {
        match first {
            Some((key, _)) => Ok(ReplCommand::Rm { key }),
            None => Err(Mistake::Usage("Usage: rm <KEY>")),
        }
    } else {
        Err(Mistake::Unknown(command))
    }
}

/// Reads a line as a command.
pub fn parse_command<'a>(input: &'a str) -> (res: Option<ReplCommand<'a>>)
    ensures
        match command_in(words(input@, 0)) {
            Ok(command) => res is Some && res->0@ == command,
            Err(_) => res is None,
        },
{
    match read_command(input) {
        Ok(command) => Some(command),
        Err(_) => None,
    }
}

/// What to do about a line.
#[derive(Debug, PartialEq, Eq)]
pub enum LineAction<'a> {
    /// Nothing: the line is blank.
    Skip,
    /// Leave.
    Quit,
    /// Show the commands that there are.
    Help,
    /// Carry out a command.
    Run(ReplCommand<'a>),
    /// Say what is wrong with it.
    Complain(Mistake<'a>),
}

/// The view of a [`LineAction`].
pub enum LineActionView {
    Skip,
    Quit,
    Help,
    Run(ReplCommandView),
    Complain(MistakeView),
}

impl<'a> View for LineAction<'a> {
    type V = LineActionView;

    open spec fn view(&self) -> LineActionView {
        match self {
            LineAction::Skip => LineActionView::Skip,
            LineAction::Quit => LineActionView::Quit,
            LineAction::Help => LineActionView::Help,
            LineAction::Run(command) => LineActionView::Run(command@),
            LineAction::Complain(mistake) => LineActionView::Complain(mistake@),
        }
    }
}

/// What to do about a line that was typed, less the white space at its ends.
pub open spec fn action_for(line: Seq<char>) -> LineActionView {
    if line.len() == 0 {
        LineActionView::Skip
    } else if line == "quit"@ || line == "exit"@ {
        LineActionView::Quit
    } else if line == "help"@ {
        LineActionView::Help
    } else {
        match command_in(words(line, 0)) {
            Ok(command) => LineActionView::Run(command),
            Err(mistake) => LineActionView::Complain(mistake),
        }
    }
}

/// Decides what to do about a line that was typed.
pub fn line_action<'a>(typed: &'a str) -> (action: LineAction<'a>)
    ensures
        action@ == action_for(trimmed(typed@)),
{
    let line = trim(typed);
    if line.is_empty() {
        LineAction::Skip
    } else if same_text(line, "quit") || same_text(line, "exit") {
        LineAction::Quit
    } else if same_text(line, "help") {
        LineAction::Help
    } else {
        match read_command(line) {
            Ok(command) => LineAction::Run(command),
            Err(mistake) => LineAction::Complain(mistake),
        }
    }
}

/// What is said about the outcome of a command.
#[derive(Debug)]
pub enum Saying {
    /// A line for the user.
    Line(String),
    /// The server answered something that makes no sense here.
    Unexpected(Response),
    /// The command failed.
    Failed(KvsError),
}

/// The view of a [`Saying`].
pub enum SayingView {
    Line(Seq<char>),
    Unexpected(ResponseView),
    Failed(KvsErrorView),
}

impl View for Saying {
    type V = SayingView;

    open spec fn view(&self) -> SayingView {
        match self {
            Saying::Line(text) => SayingView::Line(text@),
            Saying::Unexpected(resp) => SayingView::Unexpected(resp@),
            Saying::Failed(e) => SayingView::Failed(e@),
        }
    }
}

/// The line about a key that was given a value.
fn set_line(key: &str, value: &str) -> (line: String)
    ensures
        line@ == "SET "@ + key@ + " = "@ + value@,
{
    let mut line: String = String::new();
    line.append("SET ");
    line.append(key);
    line.append(" = ");
    line.append(value);
    assert(line@ =~= "SET "@ + key@ + " = "@ + value@);
    line
}

/// The line about a key that was removed.
fn rm_line(key: &str) -> (line: String)
    ensures
        line@ == "Removed key: "@ + key@,
{
    let mut line: String = String::new();
    line.append("Removed key: ");
    line.append(key);
    assert(line@ =~= "Removed key: "@ + key@);
    line
}

/// What is said about a write to a local store.
pub fn local_set(key: &str, value: &str, result: Result<(), KvsError>) -> (saying: Saying)
    ensures
        saying@ == (match result {
            Ok(()) => SayingView::Line("SET "@ + key@ + " = "@ + value@),
            Err(e) => SayingView::Failed(e@),
        }),
{
    match result {
        Ok(()) => Saying::Line(set_line(key, value)),
        Err(e) => Saying::Failed(e),
    }
}

/// What is said about a read from a local store.
pub fn local_get(result: Result<Option<String>, KvsError>) -> (saying: Saying)
    ensures
        saying@ == (match result {
            Ok(Some(value)) => SayingView::Line(value@),
            Ok(None) => SayingView::Line("Key not found"@),
            Err(e) => SayingView::Failed(e@),
        }),
{
    match result {
        Ok(Some(value)) => Saying::Line(value),
        Ok(None) => Saying::Line("Key not found".to_owned()),
        Err(e) => Saying::Failed(e),
    }
}

/// What is said about a removal from a local store.
pub fn local_rm(key: &str, result: Result<(), KvsError>) -> (saying: Saying)
    ensures
        saying@ == (match result {
            Ok(()) => SayingView::Line("Removed key: "@ + key@),
            Err(e) => SayingView::Failed(e@),
        }),
{
    match result {
        Ok(()) => Saying::Line(rm_line(key)),
        Err(e) => Saying::Failed(e),
    }
}

/// What is said about a write over the network.
pub fn remote_set(key: &str, value: &str, result: Result<Response, KvsError>) -> (saying: Saying)
    ensures
        saying@ == (match result {
            Ok(Response::Done) => SayingView::Line("SET "@ + key@ + " = "@ + value@),
            Ok(other) => SayingView::Unexpected(other@),
            Err(e) => SayingView::Failed(e@),
        }),
{
    match result {
        Ok(Response::Done) => Saying::Line(set_line(key, value)),
        Ok(other) => Saying::Unexpected(other),
        Err(e) => Saying::Failed(e),
    }
}

/// What is said about a read over the network.
pub fn remote_get(result: Result<Response, KvsError>) -> (saying: Saying)
    ensures
        saying@ == (match result {
            Ok(Response::Value(value)) => SayingView::Line(value@),
            Ok(other) => SayingView::Unexpected(other@),
            Err(KvsError::KeyNotFound) => SayingView::Line("Key not found"@),
            Err(e) => SayingView::Failed(e@),
        }),
{
    match result {
        Ok(Response::Value(value)) => Saying::Line(value),
        Ok(other) => Saying::Unexpected(other),
        Err(KvsError::KeyNotFound) => Saying::Line("Key not found".to_owned()),
        Err(e) => Saying::Failed(e),
    }
}

/// What is said about a removal over the network.
pub fn remote_rm(key: &str, result: Result<Response, KvsError>) -> (saying: Saying)
    ensures
        saying@ == (match result {
            Ok(Response::Done) => SayingView::Line("Removed key: "@ + key@),
            Ok(other) => SayingView::Unexpected(other@),
            Err(e) => SayingView::Failed(e@),
        }),
{
    match result {
        Ok(Response::Done) => Saying::Line(rm_line(key)),
        Ok(other) => Saying::Unexpected(other),
        Err(e) => Saying::Failed(e),
    }
}

/// What is typed as `set`, a key and a value, with white space between and
/// around them and anything behind it, is read as that key and that value,
/// whatever their characters are.
pub proof fn law_typed_set(
    input: &str,
    pads: (Seq<char>, Seq<char>, Seq<char>),
    key: Seq<char>,
    value: Seq<char>,
    rest: Seq<char>,
    res: Option<ReplCommand<'_>>,
)
    requires
        call_ensures(parse_command, (input,), res),
        blank(pads.0) && blank(pads.1) && blank(pads.2),
        pads.1.len() > 0 && pads.2.len() > 0,
        is_word(key) && is_word(value),
        starts_blank(rest),
        input@ == pads.0 + "set"@ + (pads.1 + key + (pads.2 + value + rest)),
    ensures
        res is Some,
        res->0@ == (ReplCommandView::Put { key, value }),
{
    reveal_strlit("set");
    assert(is_word("set"@));
    law_three_words(pads, "set"@, key, value, rest);
}

/// What is typed as `get` or `rm` and a key is read as that command for that
/// key.
pub proof fn law_typed_get_and_rm(
    input: &str,
    pads: (Seq<char>, Seq<char>),
    key: Seq<char>,
    rest: Seq<char>,
    res: Option<ReplCommand<'_>>,
)
    requires
        call_ensures(parse_command, (input,), res),
        blank(pads.0) && blank(pads.1),
        pads.1.len() > 0,
        is_word(key),
        starts_blank(rest),
    ensures
        input@ == pads.0 + "get"@ + (pads.1 + key + rest) ==> res is Some && res->0@ == (
        ReplCommandView::Get { key }),
        input@ == pads.0 + "rm"@ + (pads.1 + key + rest) ==> res is Some && res->0@ == (
        ReplCommandView::Rm { key }),
{
    reveal_strlit("set");
    reveal_strlit("get");
    reveal_strlit("rm");
    assert("get"@ != "set"@) by {
        assert("get"@[0] != "set"@[0]);
    }
    assert("rm"@.len() != "set"@.len() && "rm"@.len() != "get"@.len());
    law_two_words(pads, "get"@, key, rest);
    law_two_words(pads, "rm"@, key, rest);
}

/// A line without words is no command, and neither is one with a command that
/// lacks an argument, nor one that starts with any other word.
pub proof fn law_typed_nonsense(
    input: &str,
    pad: Seq<char>,
    word: Seq<char>,
    rest: Seq<char>,
    res: Option<ReplCommand<'_>>,
)
    requires
        call_ensures(parse_command, (input,), res),
        blank(pad),
        is_word(word),
        starts_blank(rest),
    ensures
        input@ == pad ==> res is None,
        input@ == pad + word + rest && blank(rest) ==> res is None,
        input@ == pad + word + rest && word != "set"@ && word != "get"@ && word != "rm"@
            ==> res is None,
{
    law_no_words(pad);
    law_first_word(pad, word, rest);
    if blank(rest) {
        law_no_words(rest);
    }
}

/// A `set` with a key and no value is no command.
pub proof fn law_typed_set_without_value(
    input: &str,
    pads: (Seq<char>, Seq<char>),
    key: Seq<char>,
    rest: Seq<char>,
    res: Option<ReplCommand<'_>>,
)
    requires
        call_ensures(parse_command, (input,), res),
        blank(pads.0) && blank(pads.1) && blank(rest),
        pads.1.len() > 0,
        is_word(key),
        input@ == pads.0 + "set"@ + (pads.1 + key + rest),
    ensures
        res is None,
{
    reveal_strlit("set");
    assert(starts_blank(rest)) by {
        if rest.len() > 0 {
            assert(is_space(rest[0]));
        }
    }
    law_two_words(pads, "set"@, key, rest);
    law_no_words(rest);
}

/// At the prompt, white space around a line does not matter. A blank line is
/// skipped, `quit` and `exit` leave, `help` helps, and any other line is
/// carried out exactly if it is read as a command.
pub proof fn law_prompt(
    typed: &str,
    pad: Seq<char>,
    line: &str,
    end_pad: Seq<char>,
    action: LineAction<'_>,
    read: Option<ReplCommand<'_>>,
)
    requires
        call_ensures(line_action, (typed,), action),
        call_ensures(parse_command, (line,), read),
        blank(pad),
        blank(end_pad),
        line@.len() > 0 ==> !is_space(line@[0]) && !is_space(line@.last()),
        typed@ == pad + line@ + end_pad,
    ensures
        action@ is Skip <==> line@.len() == 0,
        action@ is Quit <==> line@ == "quit"@ || line@ == "exit"@,
        action@ is Help <==> line@ == "help"@,
        action@ is Run ==> read is Some && action@->Run_0 == read->0@,
        action@ is Complain ==> read is None,
{
    reveal_strlit("quit");
    reveal_strlit("exit");
    reveal_strlit("help");
    assert("help"@ != "quit"@ && "help"@ != "exit"@) by {
        assert("help"@[0] != "quit"@[0]);
        assert("help"@[0] != "exit"@[0]);
    }
    law_trimmed(pad, line@, end_pad);
}

/// What is said about a command that a server has carried out is what is said
/// about one that was carried out locally, as long as it did not fail: a store
/// says the same over the network.
pub proof fn law_same_over_the_network(
    key: &str,
    value: &str,
    got: Result<Option<String>, KvsError>,
    done: Result<(), KvsError>,
    reply_got: Result<Response, KvsError>,
    reply_done: Result<Response, KvsError>,
    local: (Saying, Saying, Saying),
    remote: (Saying, Saying, Saying),
)
    requires
        got is Ok,
        done is Ok,
        // the replies are what the client makes of what the server sends
        match received(Some((reply_to_get(got).msg_type(), reply_to_get(got).payload()))) {
            Ok(resp) => reply_got is Ok && reply_got->Ok_0@ == resp,
            Err(e) => reply_got is Err && reply_got->Err_0@ == e,
        },
        match received(Some((reply_to_write(done).msg_type(), reply_to_write(done).payload()))) {
            Ok(resp) => reply_done is Ok && reply_done->Ok_0@ == resp,
            Err(e) => reply_done is Err && reply_done->Err_0@ == e,
        },
        call_ensures(local_set, (key, value, done), local.0),
        call_ensures(local_get, (got,), local.1),
        call_ensures(local_rm, (key, done), local.2),
        call_ensures(remote_set, (key, value, reply_done), remote.0),
        call_ensures(remote_get, (reply_got,), remote.1),
        call_ensures(remote_rm, (key, reply_done), remote.2),
    ensures
        local.0@ == remote.0@,
        local.1@ == remote.1@,
        local.2@ == remote.2@,
        local.0@ is Line && local.1@ is Line && local.2@ is Line,
        local.1@->Line_0 == (match got->Ok_0 {
            Some(v) => v@,
            None => "Key not found"@,
        }),
{
    law_response_round_trip(reply_to_get(got));
    law_response_round_trip(reply_to_write(done));
}

/// What is said about a command that was carried out names the key and the
/// value, whatever they are.
pub proof fn law_lines(
    key: &str,
    value: &str,
    done: Result<(), KvsError>,
    set: Saying,
    rm: Saying,
)
    requires
        done is Ok,
        call_ensures(local_set, (key, value, done), set),
        call_ensures(local_rm, (key, done), rm),
    ensures
        set@ == SayingView::Line("SET "@ + key@ + " = "@ + value@),
        rm@ == SayingView::Line("Removed key: "@ + key@),
{
}

/// What is said about a command that failed is the error, as it is; only a read
/// over the network says of a missing key that there is none. An answer that
/// does not belong to the command is named.
pub proof fn law_failures(
    key: &str,
    value: &str,
    e: KvsError,
    resp: Response,
    local: (Saying, Saying, Saying),
    remote: (Saying, Saying, Saying),
    odd: (Saying, Saying, Saying),
)
    requires
        call_ensures(local_set, (key, value, Err::<(), KvsError>(e)), local.0),
        call_ensures(local_get, (Err::<Option<String>, KvsError>(e),), local.1),
        call_ensures(local_rm, (key, Err::<(), KvsError>(e)), local.2),
        call_ensures(remote_set, (key, value, Err::<Response, KvsError>(e)), remote.0),
        call_ensures(remote_get, (Err::<Response, KvsError>(e),), remote.1),
        call_ensures(remote_rm, (key, Err::<Response, KvsError>(e)), remote.2),
        call_ensures(remote_set, (key, value, Ok::<Response, KvsError>(resp)), odd.0),
        call_ensures(remote_get, (Ok::<Response, KvsError>(resp),), odd.1),
        call_ensures(remote_rm, (key, Ok::<Response, KvsError>(resp)), odd.2),
    ensures
        local.0@ == SayingView::Failed(e@),
        local.1@ == SayingView::Failed(e@),
        local.2@ == SayingView::Failed(e@),
        remote.0@ == SayingView::Failed(e@),
        remote.2@ == SayingView::Failed(e@),
        remote.1@ == (if e is KeyNotFound {
            SayingView::Line("Key not found"@)
        } else {
            SayingView::Failed(e@)
        }),
        !(resp is Done) ==> odd.0@ == SayingView::Unexpected(resp@) && odd.2@
            == SayingView::Unexpected(resp@),
        !(resp is Value) ==> odd.1@ == SayingView::Unexpected(resp@),
{
}

/// What is wrong with a line that is no command: that there is nothing on it,
/// which arguments the command takes, or the word that is no command.
pub proof fn law_mistakes(
    input: &str,
    pad: Seq<char>,
    word: Seq<char>,
    rest: Seq<char>,
    res: Result<ReplCommand<'_>, Mistake<'_>>,
    parsed: Option<ReplCommand<'_>>,
)
    requires
        call_ensures(read_command, (input,), res),
        call_ensures(parse_command, (input,), parsed),
        blank(pad),
        is_word(word),
        starts_blank(rest),
    ensures
        res is Ok <==> parsed is Some,
        res is Ok ==> res->Ok_0@ == parsed->0@,
        input@ == pad ==> res is Err && res->Err_0@ == MistakeView::Nothing,
        input@ == pad + word + rest && word != "set"@ && word != "get"@ && word != "rm"@
            ==> res is Err && res->Err_0@ == MistakeView::Unknown(word),
        input@ == pad + word + rest && blank(rest) && word == "get"@ ==> res is Err
            && res->Err_0@ == MistakeView::Usage("Usage: get <KEY>"@),
        input@ == pad + word + rest && blank(rest) && word == "rm"@ ==> res is Err && res->Err_0@
            == MistakeView::Usage("Usage: rm <KEY>"@),
        input@ == pad + word + rest && blank(rest) && word == "set"@ ==> res is Err
            && res->Err_0@ == MistakeView::Usage("Usage: set <KEY> <VALUE>"@),
{
    reveal_strlit("set");
    reveal_strlit("get");
    reveal_strlit("rm");
    assert("get"@ != "set"@) by {
        assert("get"@[0] != "set"@[0]);
    }
    law_no_words(pad);
    law_first_word(pad, word, rest);
    if blank(rest) {
        law_no_words(rest);
    }
}

} // verus!
