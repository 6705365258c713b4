//! Operator commands: a line of text turned into the event it asks for and the
//! line echoed to the console.
use crate::messages::{CDMessage, IOMessage, KVCommand, KeyValue, UIMessage};
use crate::text::{decimal, decimal_text, parse_bool, parse_u64, parsed_bool, parsed_u64, same_text, trim, trimmed};
use vstd::prelude::*;
use vstd::string::StringExecFns;

verus! {

pub const INVALID_COMMAND: &'static str = "Valid commands are put/get/delete/connection/batch/scenario/clear";

pub const INVALID_DELETE: &'static str = "Invalid command, format is: delete <key-to-delete> [<node-id>]";

pub const INVALID_GET: &'static str = "Invalid command, format is: get <key-to-get> [<node-id>]";

pub const INVALID_PUT: &'static str = "Invalid command, format is: put <key> <value> [<node-id>]";

pub const INVALID_CONNECTION: &'static str =
    "Invalid command, format is: connection <node-id> [<another-node-id>] <true/false>";

pub const INVALID_CONNECTION_ARG1: &'static str =
    "Invalid command: first connection argument must be a number";

pub const INVALID_CONNECTION_ARG2: &'static str =
    "Invalid command: second connection argument must be a number";

pub const INVALID_CONNECTION_ARG3: &'static str =
    "Invalid command: third connection argument must be a bool";

pub const INVALID_BATCH: &'static str = "Invalid command, format is: batch <number-of-proposals>";

pub const INVALID_BATCH_ARG1: &'static str = "Invalid command: first batch argument must be a number";

pub const INVALID_SCENARIO: &'static str =
    "Invalid command, format is: scenario <restore/qloss/constrained/chained>";

/// A refused command line, with the message to show the operator.
#[derive(Clone, Debug, PartialEq, Eq)]
pub struct ParseCommandError(pub String);

impl ParseCommandError {
    /// The message shown to the operator.
    pub fn message(&self) -> (r: String)
        ensures
            r@ == self.0@,
    {
        self.0.clone()
    }
}

/// The words of `s` separated by single spaces; consecutive spaces give empty words,
/// and there is always at least one word.
pub open spec fn split_spaces(s: Seq<char>) -> Seq<Seq<char>>
    decreases s.len(),
{
    if s.len() == 0 {
        seq![Seq::empty()]
    } else {
        let w = split_spaces(s.drop_last());
        if s.last() == ' ' {
            w.push(Seq::empty())
        } else {
            w.update(w.len() - 1, w.last().push(s.last()))
        }
    }
}

proof fn lemma_split_nonempty(s: Seq<char>)
    ensures
        split_spaces(s).len() >= 1,
    decreases s.len(),
{
    if s.len() > 0 {
        lemma_split_nonempty(s.drop_last());
    }
}

pub open spec fn words_view(v: Seq<String>) -> Seq<Seq<char>> {
    v.map_values(|w: String| w@)
}

/// Splits `s` at each space.
fn split_words(s: &str) -> (r: Vec<String>)
    ensures
        words_view(r@) == split_spaces(s@),
{
    let n = s.unicode_len();
    let mut r: Vec<String> = Vec::new();
    let mut start: usize = 0;
    let mut i: usize = 0;
    proof {
        assert(words_view(r@) =~= Seq::<Seq<char>>::empty());
        assert(s@.subrange(0, 0) =~= Seq::<char>::empty());
        assert(words_view(r@).push(s@.subrange(0, 0)) =~= seq![Seq::<char>::empty()]);
    }
    while i < n
        invariant
            n == s@.len(),
            0 <= start <= i <= n,
            words_view(r@).push(s@.subrange(start as int, i as int)) == split_spaces(
                s@.subrange(0, i as int),
            ),
        decreases n - i,
    {
        let c = s.get_char(i);
        let ghost pre = s@.subrange(0, i as int);
        proof {
            lemma_split_nonempty(pre);
            assert(s@.subrange(0, i + 1).drop_last() == pre);
            assert(s@.subrange(0, i + 1).last() == c);
        }
        if c == ' ' {
            let w = String::from_str(s.substring_char(start, i));
            let ghost old_r = r@;
            r.push(w);
            proof {
                assert(words_view(r@) =~= words_view(old_r).push(w@));
                assert(s@.subrange((i + 1) as int, (i + 1) as int) =~= Seq::<char>::empty());
            }
            start = i + 1;
        } else {
            proof {
                let w = split_spaces(pre);
                assert(s@.subrange(start as int, i + 1) =~= s@.subrange(start as int, i as int).push(c));
                assert(words_view(r@).push(s@.subrange(start as int, i + 1)) =~= w.update(
                    w.len() - 1,
                    w.last().push(c),
                ));
            }
        }
        i += 1;
    }
    let w = String::from_str(s.substring_char(start, n));
    let ghost old_r = r@;
    r.push(w);
    proof {
        assert(words_view(r@) =~= words_view(old_r).push(w@));
        assert(s@.subrange(0, n as int) == s@);
    }
    r
}

/// The optional node id after a command's arguments, and how the echo names the
/// target: `node <id>`, or `leader` when none is given.
pub open spec fn proposer_spec(words: Seq<Seq<char>>, at: int, err: Seq<char>) -> Result<
    (Option<u64>, Seq<char>),
    Seq<char>,
> {
    if 0 <= at < words.len() {
        match parsed_u64(words[at]) {
            Some(pid) => Ok((Some(pid), "node "@ + decimal_text(pid as nat))),
            None => Err(err),
        }
    } else {
        Ok((None, "leader"@))
    }
}

pub open spec fn proposer_view(r: Result<(Option<u64>, String), ParseCommandError>) -> Result<
    (Option<u64>, Seq<char>),
    Seq<char>,
> {
    match r {
        Ok((p, s)) => Ok((p, s@)),
        Err(e) => Err(e.0@),
    }
}

/// Reads the optional node id at position `at` of `words`; refuses it with
/// `error_msg` when it is not a number.
pub fn parse_command_proposer_and_string(words: &Vec<String>, at: usize, error_msg: String) -> (r:
    Result<(Option<u64>, String), ParseCommandError>)
    ensures
        proposer_view(r) == proposer_spec(words_view(words@), at as int, error_msg@),
{
    if at < words.len() {
        match parse_u64(words[at].as_str()) {
            Some(pid) => {
                let mut s = String::from_str("node ");
                s.append(decimal(pid).as_str());
                Ok((Some(pid), s))
            },
            None => Err(ParseCommandError(error_msg)),
        }
    } else {
        Ok((None, String::from_str("leader")))
    }
}

/// A command as the contracts see it.
pub enum Command {
    Clear,
    Delete(Seq<char>, Option<u64>),
    Get(Seq<char>, Option<u64>),
    Put(Seq<char>, Seq<char>, Option<u64>),
    Connection(u64, Option<u64>, bool),
    Batch(u64),
    Scenario(Seq<char>),
    Other,
}

/// The command that an event stands for.
pub open spec fn command_view(m: IOMessage) -> Command {
    match m {
        IOMessage::UIMessage(UIMessage::ClearConsole) => Command::Clear,
        IOMessage::CDMessage(CDMessage::KVCommand(KVCommand::Delete(k), p)) => Command::Delete(
            k@,
            p,
        ),
        IOMessage::CDMessage(CDMessage::KVCommand(KVCommand::Get(k), p)) => Command::Get(k@, p),
        IOMessage::CDMessage(CDMessage::KVCommand(KVCommand::Put(kv), p)) => Command::Put(
            kv.key@,
            kv.value@,
            p,
        ),
        IOMessage::CDMessage(CDMessage::SetConnection(a, b, c)) => Command::Connection(a, b, c),
        IOMessage::CDMessage(CDMessage::StartBatchingPropose(n)) => Command::Batch(n),
        IOMessage::CDMessage(CDMessage::Scenario(s)) => Command::Scenario(s@),
        _ => Command::Other,
    }
}

pub open spec fn parse_view(r: Result<(IOMessage, String), ParseCommandError>) -> Result<
    (Command, Seq<char>),
    Seq<char>,
> {
    match r {
        Ok((m, s)) => Ok((command_view(m), s@)),
        Err(e) => Err(e.0@),
    }
}

/// The echo of a `connection` command.
pub open spec fn connection_echo(from: u64, to: Option<u64>, connected: bool) -> Seq<char> {
    let target = match to {
        Some(b) => "node "@ + decimal_text(b as nat),
        None => "all nodes"@,
    };
    if connected {
        "Connecting node "@ + decimal_text(from as nat) + " to "@ + target
    } else {
        "Disconnecting node "@ + decimal_text(from as nat) + " from "@ + target
    }
}

/// `connection <from> [<to>] <true|false>`, given the words after the command name.
pub open spec fn connection_spec(args: Seq<Seq<char>>) -> Result<(Command, Seq<char>), Seq<char>> {
    if args.len() < 2 {
        Err(INVALID_CONNECTION@)
    } else if parsed_u64(args[0]) is None {
        Err(INVALID_CONNECTION_ARG1@)
    } else if args.len() == 2 {
        let from = parsed_u64(args[0])->0;
        match parsed_bool(args[1]) {
            None => Err(INVALID_CONNECTION_ARG3@),
            Some(c) => Ok((Command::Connection(from, None, c), connection_echo(from, None, c))),
        }
    } else {
        let from = parsed_u64(args[0])->0;
        match parsed_u64(args[1]) {
            None => Err(INVALID_CONNECTION_ARG2@),
            Some(to) => match parsed_bool(args[2]) {
                None => Err(INVALID_CONNECTION_ARG3@),
                Some(c) => Ok(
                    (Command::Connection(from, Some(to), c), connection_echo(from, Some(to), c)),
                ),
            },
        }
    }
}

/// The echo of a `scenario` command, for the names it accepts.
pub open spec fn scenario_echo(name: Seq<char>) -> Option<Seq<char>> {
    if name == "qloss"@ {
        Some("Creating quorum-loss scenario"@)
    } else if name == "constrained"@ {
        Some("Creating constrained election scenario"@)
    } else if name == "chained"@ {
        Some("Creating chained scenario"@)
    } else if name == "restore"@ {
        Some("Restoring all connections"@)
    } else {
        None
    }
}

/// The meaning of a command line split into words: the event and its echo, or the
/// message that refuses it.
pub open spec fn command_spec(words: Seq<Seq<char>>) -> Result<(Command, Seq<char>), Seq<char>> {
    let kind = words[0];
    if kind == "clear"@ {
        Ok((Command::Clear, "clear"@))
    } else if kind == "delete"@ {
        if words.len() < 2 {
            Err(INVALID_DELETE@)
        } else {
            match proposer_spec(words, 2, INVALID_DELETE@) {
                Err(e) => Err(e),
                Ok((p, t)) => Ok(
                    (Command::Delete(words[1], p), "Delete key: "@ + words[1] + " at "@ + t),
                ),
            }
        }
    } else if kind == "get"@ {
        if words.len() < 2 {
            Err(INVALID_GET@)
        } else {
            match proposer_spec(words, 2, INVALID_GET@) {
                Err(e) => Err(e),
                Ok((p, t)) => Ok((Command::Get(words[1], p), "Get key: "@ + words[1] + " from "@ + t)),
            }
        }
    } else if kind == "put"@ {
        if words.len() < 3 {
            Err(INVALID_PUT@)
        } else {
            match proposer_spec(words, 3, INVALID_PUT@) {
                Err(e) => Err(e),
                Ok((p, t)) => Ok(
                    (
                        Command::Put(words[1], words[2], p),
                        "Put key: "@ + words[1] + ", value: "@ + words[2] + " at "@ + t,
                    ),
                ),
            }
        }
    } else if kind == "connection"@ {
        connection_spec(words.drop_first())
    } else if kind == "batch"@ {
        if words.len() < 2 {
            Err(INVALID_BATCH@)
        } else {
            match parsed_u64(words[1]) {
                None => Err(INVALID_BATCH_ARG1@),
                Some(n) => Ok(
                    (Command::Batch(n), "Batching "@ + decimal_text(n as nat) + " put operations"@),
                ),
            }
        }
    } else if kind == "scenario"@ {
        if words.len() < 2 {
            Err(INVALID_SCENARIO@)
        } else {
            match scenario_echo(words[1]) {
                None => Err(INVALID_SCENARIO@),
                Some(t) => Ok((Command::Scenario(words[1]), t)),
            }
        }
    } else {
        Err(INVALID_COMMAND@)
    }
}

fn refuse(msg: &str) -> (r: ParseCommandError)
    ensures
        r.0@ == msg@,
{
    ParseCommandError(String::from_str(msg))
}

fn connection_command(words: &Vec<String>) -> (r: Result<(IOMessage, String), ParseCommandError>)
    requires
        words@.len() >= 1,
    ensures
        parse_view(r) == connection_spec(words_view(words@).drop_first()),
{
    let ghost args = words_view(words@).drop_first();
    let n = words.len() - 1;
    if n < 2 {
        return Err(refuse(INVALID_CONNECTION));
    }
    let from = match parse_u64(words[1].as_str()) {
        Some(v) => v,
        None => return Err(refuse(INVALID_CONNECTION_ARG1)),
    };
    assert(args[0] == words@[1]@);
    assert(args[1] == words@[2]@);
    let (to, connected) = if n == 2 {
        match parse_bool(words[2].as_str()) {
            Some(c) => (None, c),
            None => return Err(refuse(INVALID_CONNECTION_ARG3)),
        }
    } else {
        assert(args[2] == words@[3]@);
        let to = match parse_u64(words[2].as_str()) {
            Some(v) => v,
            None => return Err(refuse(INVALID_CONNECTION_ARG2)),
        };
        match parse_bool(words[3].as_str()) {
            Some(c) => (Some(to), c),
            None => return Err(refuse(INVALID_CONNECTION_ARG3)),
        }
    };
    let target = match to {
        Some(b) => {
            let mut t = String::from_str("node ");
            t.append(decimal(b).as_str());
            t
        },
        None => String::from_str("all nodes"),
    };
    let mut out = if connected {
        String::from_str("Connecting node ")
    } else {
        String::from_str("Disconnecting node ")
    };
    out.append(decimal(from).as_str());
    if connected {
        out.append(" to ");
    } else {
        out.append(" from ");
    }
    out.append(target.as_str());
    Ok((IOMessage::CDMessage(CDMessage::SetConnection(from, to, connected)), out))
}

/// Parses one operator command line into the event it asks for and the line to echo;
/// refuses a malformed line with the message that describes the expected form.
pub fn parse_command(line: String) -> (r: Result<(IOMessage, String), ParseCommandError>)
    ensures
        parse_view(r) == command_spec(split_spaces(trimmed(line@))),
{
    let words = split_words(trim(line.as_str()));
    let ghost w = words_view(words@);
    proof {
        lemma_split_nonempty(trimmed(line@));
    }
    assert(w[0] == words@[0]@);
    let kind = words[0].as_str();
    if same_text(kind, "clear") {
        return Ok((IOMessage::UIMessage(UIMessage::ClearConsole), String::from_str("clear")));
    }
    if same_text(kind, "delete") || same_text(kind, "get") {
        let delete = same_text(kind, "delete");
        let msg = if delete {
            INVALID_DELETE
        } else {
            INVALID_GET
        };
        if words.len() < 2 {
            return Err(refuse(msg));
        }
        assert(w[1] == words@[1]@);
        let value = words[1].clone();
        let (proposer, s) = match parse_command_proposer_and_string(
            &words,
            2,
            String::from_str(msg),
        ) {
            Ok(v) => v,
            Err(e) => return Err(e),
        };
        let mut out = if delete {
            String::from_str("Delete key: ")
        } else {
            String::from_str("Get key: ")
        };
        out.append(value.as_str());
        if delete {
            out.append(" at ");
        } else {
            out.append(" from ");
        }
        out.append(s.as_str());
        let cmd = if delete {
            KVCommand::Delete(value)
        } else {
            KVCommand::Get(value)
        };
        return Ok((IOMessage::CDMessage(CDMessage::KVCommand(cmd, proposer)), out));
    }
    if same_text(kind, "put") {
        if words.len() < 3 {
            return Err(refuse(INVALID_PUT));
        }
        assert(w[1] == words@[1]@);
        assert(w[2] == words@[2]@);
        let key = words[1].clone();
        let value = words[2].clone();
        let (proposer, s) = match parse_command_proposer_and_string(
            &words,
            3,
            String::from_str(INVALID_PUT),
        ) {
            Ok(v) => v,
            Err(e) => return Err(e),
        };
        let mut out = String::from_str("Put key: ");
        out.append(key.as_str());
        out.append(", value: ");
        out.append(value.as_str());
        out.append(" at ");
        out.append(s.as_str());
        let cmd = KVCommand::Put(KeyValue { key, value });
        return Ok((IOMessage::CDMessage(CDMessage::KVCommand(cmd, proposer)), out));
    }
    if same_text(kind, "connection") {
        return connection_command(&words);
    }
    if same_text(kind, "batch") {
        if words.len() < 2 {
            return Err(refuse(INVALID_BATCH));
        }
        assert(w[1] == words@[1]@);
        let num = match parse_u64(words[1].as_str()) {
            Some(v) => v,
            None => return Err(refuse(INVALID_BATCH_ARG1)),
        };
        let mut out = String::from_str("Batching ");
        out.append(decimal(num).as_str());
        out.append(" put operations");
        return Ok((IOMessage::CDMessage(CDMessage::StartBatchingPropose(num)), out));
    }
    if same_text(kind, "scenario") {
        if words.len() < 2 {
            return Err(refuse(INVALID_SCENARIO));
        }
        assert(w[1] == words@[1]@);
        let name = words[1].as_str();
        let out = if same_text(name, "qloss") {
            String::from_str("Creating quorum-loss scenario")
        } else if same_text(name, "constrained") {
            String::from_str("Creating constrained election scenario")
        } else if same_text(name, "chained") {
            String::from_str("Creating chained scenario")
        } else if same_text(name, "restore") {
            String::from_str("Restoring all connections")
        } else {
            return Err(refuse(INVALID_SCENARIO));
        };
        return Ok((IOMessage::CDMessage(CDMessage::Scenario(words[1].clone())), out));
    }
    Err(refuse(INVALID_COMMAND))
}

} // verus!
