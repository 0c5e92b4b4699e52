//! The commands of magic values: `head::argument::argument`.

use crate::json_path::{path_of, JsonNestView, JsonPathError, JsonPathRoot};
use crate::numbers::{parse_i32, parse_usize, signed_of, unsigned_of};
use crate::strings::{
    lemma_boundary_after_ascii, lemma_boundary_at, slice_string, str_eq,
};
use vstd::prelude::*;
use vstd::string::*;
use vstd::utf8::*;

verus! {

/// The arguments of a `query` command.
#[derive(Debug, PartialEq)]
pub struct QueryCommand {
    pub file: String,
    pub json_path: String,
}

/// A command of a magic value.
#[derive(Debug, PartialEq)]
pub enum MagicCommand {
    /// Execute the operation in a file and take a value out of the response.
    Query(QueryCommand),
    /// A random string of lowercase letters of the given length.
    RandomString(usize),
    /// A random integer from the first bound up to, but without, the second.
    RandomInteger((i32, i32)),
    /// A random word of the dictionary.
    RandomWord,
    /// A value of the configured variables.
    Variable(JsonPathRoot),
}

/// Mathematical model of a [`MagicCommand`].
pub enum MagicCommandView {
    Query { file: Seq<char>, json_path: Seq<char> },
    RandomString(usize),
    RandomInteger((i32, i32)),
    RandomWord,
    Variable(Seq<JsonNestView>),
}

impl View for MagicCommand {
    type V = MagicCommandView;

    open spec fn view(&self) -> MagicCommandView {
        match self {
            MagicCommand::Query(query) => MagicCommandView::Query {
                file: query.file@,
                json_path: query.json_path@,
            },
            MagicCommand::RandomString(len) => MagicCommandView::RandomString(*len),
            MagicCommand::RandomInteger(bounds) => MagicCommandView::RandomInteger(*bounds),
            MagicCommand::RandomWord => MagicCommandView::RandomWord,
            MagicCommand::Variable(path) => MagicCommandView::Variable(path@),
        }
    }
}

/// Why a text is no command.
#[derive(Debug, Clone, Copy, PartialEq, Eq)]
pub enum MagicCommandError {
    /// The head is none of the commands.
    UnknownCommand,
    /// `query` does not have two arguments: a file and a path.
    QueryArguments,
    /// `random_string` does not have one argument: a length.
    RandomStringArguments,
    /// `random_integer` does not have two arguments: the bounds.
    RandomIntegerArguments,
    /// `random_word` has an argument.
    RandomWordArguments,
    /// `variable` does not have one argument: a path.
    VariableArguments,
    /// The length is no number that the machine word holds.
    InvalidLength,
    /// A bound is no number of 32 bits.
    InvalidBound,
    /// The path of `variable` cannot be read.
    InvalidPath(JsonPathError),
}

/// Whether `::` stands at `i`.
pub open spec fn separator_at(b: Seq<u8>, i: int) -> bool {
    0 <= i && i + 2 <= b.len() && b[i] == 0x3a && b[i + 1] == 0x3a
}

/// The first place at or after `from` at which `::` stands, or the end.
pub open spec fn next_separator(b: Seq<u8>, from: int) -> int
    decreases b.len() - from,
{
    if from < 0 || from >= b.len() {
        b.len() as int
    } else if separator_at(b, from) {
        from
    } else {
        next_separator(b, from + 1)
    }
}

/// Where the next separator is found, there is one.
pub proof fn lemma_next_separator(b: Seq<u8>, from: int)
    requires
        0 <= from <= b.len(),
    ensures
        from <= next_separator(b, from) <= b.len(),
        next_separator(b, from) < b.len() ==> separator_at(b, next_separator(b, from)),
    decreases b.len() - from,
{
    if from < b.len() && !separator_at(b, from) {
        lemma_next_separator(b, from + 1);
    }
}

/// The parts of the text from `from` on that `::` separates, after the
/// parts `acc`. Separators are found from left to right.
pub open spec fn parts_from(b: Seq<u8>, from: int, acc: Seq<Seq<u8>>) -> Seq<Seq<u8>>
    decreases b.len() - from,
{
    let end = next_separator(b, from);
    if 0 <= from <= end < b.len() {
        proof {
            lemma_next_separator(b, from);
        }
        parts_from(b, end + 2, acc.push(b.subrange(from, end)))
    } else {
        acc.push(b.subrange(from, b.len() as int))
    }
}

/// The parts of a text that `::` separates: one more than separators.
pub open spec fn parts_of(b: Seq<u8>) -> Seq<Seq<u8>> {
    parts_from(b, 0, Seq::empty())
}

/// The command that the parts spell.
pub open spec fn command_of_parts(parts: Seq<Seq<u8>>) -> Result<
    MagicCommandView,
    MagicCommandError,
> {
    let head = decode_utf8(parts[0]);
    let arguments = parts.len() - 1;
    if head == "query"@ {
        if arguments != 2 {
            Err(MagicCommandError::QueryArguments)
        } else {
            Ok(
                MagicCommandView::Query {
                    file: decode_utf8(parts[1]),
                    json_path: decode_utf8(parts[2]),
                },
            )
        }
    } else if head == "random_string"@ {
        if arguments != 1 {
            Err(MagicCommandError::RandomStringArguments)
        } else {
            match unsigned_of(parts[1]) {
                Some(len) => if len <= usize::MAX {
                    Ok(MagicCommandView::RandomString(len as usize))
                } else {
                    Err(MagicCommandError::InvalidLength)
                },
                None => Err(MagicCommandError::InvalidLength),
            }
        }
    } else if head == "random_integer"@ {
        if arguments != 2 {
            Err(MagicCommandError::RandomIntegerArguments)
        } else {
            match (signed_of(parts[1]), signed_of(parts[2])) {
                (Some(min), Some(max)) => if i32::MIN <= min <= i32::MAX && i32::MIN <= max
                    <= i32::MAX {
                    Ok(MagicCommandView::RandomInteger((min as i32, max as i32)))
                } else {
                    Err(MagicCommandError::InvalidBound)
                },
                _ => Err(MagicCommandError::InvalidBound),
            }
        }
    } else if head == "random_word"@ {
        if arguments != 0 {
            Err(MagicCommandError::RandomWordArguments)
        } else {
            Ok(MagicCommandView::RandomWord)
        }
    } else if head == "variable"@ {
        if arguments != 1 {
            Err(MagicCommandError::VariableArguments)
        } else {
            match path_of(parts[1]) {
                Ok(nest) => Ok(MagicCommandView::Variable(nest)),
                Err(e) => Err(MagicCommandError::InvalidPath(e)),
            }
        }
    } else {
        Err(MagicCommandError::UnknownCommand)
    }
}

/// The command that a text spells.
pub open spec fn command_of(b: Seq<u8>) -> Result<MagicCommandView, MagicCommandError> {
    command_of_parts(parts_of(b))
}

/// What reading a command gave, as [`command_of`] states it.
pub open spec fn command_outcome(r: Result<MagicCommand, MagicCommandError>) -> Result<
    MagicCommandView,
    MagicCommandError,
> {
    match r {
        Ok(command) => Ok(command@),
        Err(e) => Err(e),
    }
}

/// The bytes of each part.
pub open spec fn part_bytes(parts: Seq<String>) -> Seq<Seq<u8>> {
    Seq::new(parts.len(), |i: int| encode_utf8(parts[i]@))
}

fn find_separator(bytes: &[u8], from: usize) -> (end: usize)
    requires
        from <= bytes.len(),
    ensures
        end == next_separator(bytes@, from as int),
        from <= end <= bytes.len(),
{
    let mut i = from;
    while i < bytes.len()
        invariant
            from <= i <= bytes.len(),
            next_separator(bytes@, from as int) == next_separator(bytes@, i as int),
        decreases bytes.len() - i,
    {
        if bytes[i] == 0x3a && bytes.len() - i >= 2 && bytes[i + 1] == 0x3a {
            return i;
        }
        i += 1;
    }
    i
}

/// Splits the text at each `::`.
fn split_parts(raw: &str) -> (parts: Vec<String>)
    ensures
        part_bytes(parts@) == parts_of(raw.spec_bytes()),
        parts.len() >= 1,
{
    let bytes = raw.as_bytes();
    let mut parts: Vec<String> = Vec::new();
    let mut from: usize = 0;
    proof {
        encode_utf8_valid_utf8(raw@);
        is_char_boundary_start_end_of_seq(bytes@);
    }
    assert(part_bytes(parts@) =~= Seq::<Seq<u8>>::empty());
    loop
        invariant_except_break
            parts_of(bytes@) == parts_from(bytes@, from as int, part_bytes(parts@)),
        invariant
            bytes@ == raw.spec_bytes(),
            valid_utf8(bytes@),
            from <= bytes.len(),
            is_char_boundary(bytes@, from as int),
        ensures
            part_bytes(parts@) == parts_of(bytes@),
            parts.len() >= 1,
        decreases bytes.len() - from,
    {
        let end = find_separator(bytes, from);
        let ghost before = part_bytes(parts@);
        proof {
            lemma_next_separator(bytes@, from as int);
            lemma_boundary_at(bytes@, end as int);
        }
        let part = slice_string(raw, from, end);
        parts.push(part);
        assert(part_bytes(parts@) =~= before.push(bytes@.subrange(from as int, end as int)));
        if end >= bytes.len() {
            break ;
        }
        proof {
            lemma_boundary_after_ascii(bytes@, end as int);
            lemma_boundary_after_ascii(bytes@, end + 1);
        }
        from = end + 2;
    }
    parts
}

impl MagicCommand {
    /// Reads a command.
    pub fn from(raw: &str) -> (r: Result<MagicCommand, MagicCommandError>)
        ensures
            command_outcome(r) == command_of(raw.spec_bytes()),
    {
        let parts = split_parts(raw);
        let ghost bytes = part_bytes(parts@);
        proof {
            assert forall|i: int| 0 <= i < parts.len() implies decode_utf8(#[trigger] bytes[i])
                == parts[i]@ by {
                encode_utf8_decode_utf8(parts[i]@);
            }
        }
        let head = parts[0].as_str();
        if str_eq(head, "query") {
            MagicCommand::parse_query(&parts)
        } else if str_eq(head, "random_string") {
            MagicCommand::parse_random_string(&parts)
        } else if str_eq(head, "random_integer") {
            MagicCommand::parse_random_integer(&parts)
        } else if str_eq(head, "random_word") {
            if parts.len() != 1 {
                Err(MagicCommandError::RandomWordArguments)
            } else {
                Ok(MagicCommand::RandomWord)
            }
        } else if str_eq(head, "variable") {
            if parts.len() != 2 {
                Err(MagicCommandError::VariableArguments)
            } else {
                match JsonPathRoot::from(parts[1].as_str()) {
                    Ok(path) => Ok(MagicCommand::Variable(path)),
                    Err(e) => Err(MagicCommandError::InvalidPath(e)),
                }
            }
        } else {
            Err(MagicCommandError::UnknownCommand)
        }
    }

    fn parse_query(parts: &Vec<String>) -> (r: Result<MagicCommand, MagicCommandError>)
        requires
            parts.len() >= 1,
            parts[0]@ == "query"@,
        ensures
            command_outcome(r) == command_of_parts(part_bytes(parts@)),
    {
        proof {
            assert forall|i: int| 0 <= i < parts.len() implies decode_utf8(
                #[trigger] part_bytes(parts@)[i],
            ) == parts[i]@ by {
                encode_utf8_decode_utf8(parts[i]@);
            }
        }
        if parts.len() != 3 {
            return Err(MagicCommandError::QueryArguments);
        }
        Ok(
            MagicCommand::Query(
                QueryCommand { file: parts[1].clone(), json_path: parts[2].clone() },
            ),
        )
    }

    fn parse_random_string(parts: &Vec<String>) -> (r: Result<MagicCommand, MagicCommandError>)
        requires
            parts.len() >= 1,
            parts[0]@ == "random_string"@,
        ensures
            command_outcome(r) == command_of_parts(part_bytes(parts@)),
    {
        proof {
            reveal_strlit("query");
            reveal_strlit("random_string");
            encode_utf8_decode_utf8(parts[0]@);
        }
        if parts.len() != 2 {
            return Err(MagicCommandError::RandomStringArguments);
        }
        match parse_usize(parts[1].as_str()) {
            Some(len) => Ok(MagicCommand::RandomString(len)),
            None => Err(MagicCommandError::InvalidLength),
        }
    }

    fn parse_random_integer(parts: &Vec<String>) -> (r: Result<MagicCommand, MagicCommandError>)
        requires
            parts.len() >= 1,
            parts[0]@ == "random_integer"@,
        ensures
            command_outcome(r) == command_of_parts(part_bytes(parts@)),
    {
        proof {
            reveal_strlit("query");
            reveal_strlit("random_string");
            reveal_strlit("random_integer");
            encode_utf8_decode_utf8(parts[0]@);
        }
        if parts.len() != 3 {
            return Err(MagicCommandError::RandomIntegerArguments);
        }
        let min = match parse_i32(parts[1].as_str()) {
            Some(min) => min,
            None => {
                return Err(MagicCommandError::InvalidBound);
            },
        };
        match parse_i32(parts[2].as_str()) {
            Some(max) => Ok(MagicCommand::RandomInteger((min, max))),
            None => Err(MagicCommandError::InvalidBound),
        }
    }
}

} // verus!
