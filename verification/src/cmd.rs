//! Commands: what a request frame asks for, and what the store answers.
//!
//! A request is an array of bulk strings. The first names the command,
//! in any mix of upper and lower case; the others are its arguments.
//!
//! ```text
//! GET key                 the frame that the key holds, or null
//! SET key value           stores the value, answers OK
//! HGET key field          the frame under the field, or null
//! HSET key field value    stores the value under the field, answers OK
//! HGETALL key             the hash that the key holds, as a map
//! ```

use vstd::prelude::*;
use vstd::string::StringSliceAdditionalSpecFns;
use crate::backend::{field_at, hash_at, scalar_at, with_field, Backend, ValueModel, WrongType};
use crate::resp::frame::{
    frames_view, Frame, RespFrame, RespMap, RespNull, SimpleError, SimpleString,
};
use crate::resp::order::{keys_ascending, put};

verus! {

/// Why a frame is no command.
#[derive(Debug, Clone, Copy, PartialEq, Eq, Structural)]
pub enum CommandError {
    /// The frame is not a non-empty array of bulk strings.
    InvalidShape,
    /// The first bulk string names no command.
    UnknownCommand,
    /// The command was given too few or too many arguments.
    WrongArity,
}

impl CommandError {
    /// The text of the error reply.
    pub open spec fn text(self) -> Seq<u8> {
        match self {
            CommandError::InvalidShape => "ERR command must be an array of bulk strings".spec_bytes(),
            CommandError::UnknownCommand => "ERR unknown command".spec_bytes(),
            CommandError::WrongArity => "ERR wrong number of arguments".spec_bytes(),
        }
    }

    /// The error as a reply frame.
    pub fn to_frame(&self) -> (reply: RespFrame)
        ensures
            reply@ == Frame::Error(self.text()),
    {
        match self {
            CommandError::InvalidShape => RespFrame::Error(
                SimpleError::new("ERR command must be an array of bulk strings"),
            ),
            CommandError::UnknownCommand => RespFrame::Error(SimpleError::new("ERR unknown command")),
            CommandError::WrongArity => RespFrame::Error(
                SimpleError::new("ERR wrong number of arguments"),
            ),
        }
    }
}

/// A request, with its arguments.
#[derive(Debug, Clone, PartialEq, Eq)]
pub enum Command {
    /// `GET key`
    Get { key: Vec<u8> },
    /// `SET key value`
    SetKey { key: Vec<u8>, value: RespFrame },
    /// `HGET key field`
    HGet { key: Vec<u8>, field: Vec<u8> },
    /// `HSET key field value`
    HSet { key: Vec<u8>, field: Vec<u8>, value: RespFrame },
    /// `HGETALL key`
    HGetAll { key: Vec<u8> },
}

/// The model of a request.
pub enum CommandModel {
    Get { key: Seq<u8> },
    SetKey { key: Seq<u8>, value: Frame },
    HGet { key: Seq<u8>, field: Seq<u8> },
    HSet { key: Seq<u8>, field: Seq<u8>, value: Frame },
    HGetAll { key: Seq<u8> },
}

impl View for Command {
    type V = CommandModel;

    open spec fn view(&self) -> CommandModel {
        match self {
            Command::Get { key } => CommandModel::Get { key: key@ },
            Command::SetKey { key, value } => CommandModel::SetKey { key: key@, value: value@ },
            Command::HGet { key, field } => CommandModel::HGet { key: key@, field: field@ },
            Command::HSet { key, field, value } => CommandModel::HSet {
                key: key@,
                field: field@,
                value: value@,
            },
            Command::HGetAll { key } => CommandModel::HGetAll { key: key@ },
        }
    }
}

/// An ASCII capital as its small letter, any other byte as it is.
pub open spec fn to_lower(b: u8) -> u8 {
    if 65 <= b <= 90 {
        (b + 32) as u8
    } else {
        b
    }
}

/// `name` spells `word`, a word of small letters, in any mix of case.
pub open spec fn spells(name: Seq<u8>, word: Seq<u8>) -> bool {
    name.len() == word.len() && forall|i: int|
        0 <= i < name.len() ==> to_lower(#[trigger] name[i]) == word[i]
}

/// Every frame of `args` is a bulk string.
pub open spec fn all_bulk(args: Seq<Frame>) -> bool {
    forall|i: int| 0 <= i < args.len() ==> (#[trigger] args[i]) is BulkString
}

/// The bytes of the bulk string at index `i`.
pub open spec fn arg(args: Seq<Frame>, i: int) -> Seq<u8> {
    args[i]->BulkString_0
}

/// The command named by the first of `args`, with the arguments that follow
/// it.
pub open spec fn interpret_args(args: Seq<Frame>) -> Result<CommandModel, CommandError> {
    let name = arg(args, 0);
    if spells(name, "get".spec_bytes()) {
        if args.len() == 2 {
            Ok(CommandModel::Get { key: arg(args, 1) })
        } else {
            Err(CommandError::WrongArity)
        }
    } else if spells(name, "set".spec_bytes()) {
        if args.len() == 3 {
            Ok(CommandModel::SetKey { key: arg(args, 1), value: args[2] })
        } else {
            Err(CommandError::WrongArity)
        }
    } else if spells(name, "hget".spec_bytes()) {
        if args.len() == 3 {
            Ok(CommandModel::HGet { key: arg(args, 1), field: arg(args, 2) })
        } else {
            Err(CommandError::WrongArity)
        }
    } else if spells(name, "hset".spec_bytes()) {
        if args.len() == 4 {
            Ok(CommandModel::HSet { key: arg(args, 1), field: arg(args, 2), value: args[3] })
        } else {
            Err(CommandError::WrongArity)
        }
    } else if spells(name, "hgetall".spec_bytes()) {
        if args.len() == 2 {
            Ok(CommandModel::HGetAll { key: arg(args, 1) })
        } else {
            Err(CommandError::WrongArity)
        }
    } else {
        Err(CommandError::UnknownCommand)
    }
}

/// The command that a frame asks for.
pub open spec fn interpret(f: Frame) -> Result<CommandModel, CommandError> {
    match f {
        Frame::Array(args) => if args.len() > 0 && all_bulk(args) {
            interpret_args(args)
        } else {
            Err(CommandError::InvalidShape)
        },
        _ => Err(CommandError::InvalidShape),
    }
}

/// The reply to a command that does not answer with a value.
pub open spec fn ok_reply() -> Frame {
    Frame::SimpleString("OK".spec_bytes())
}

/// The reply to a command on a key that holds the other kind of value.
pub open spec fn wrong_type_reply() -> Frame {
    Frame::Error("WRONGTYPE Operation against a key holding the wrong kind of value".spec_bytes())
}

/// The reply that hands out what was looked up: the frame, or null where
/// there is none.
pub open spec fn found(r: Result<Option<Frame>, WrongType>) -> Frame {
    match r {
        Ok(Some(f)) => f,
        Ok(None) => Frame::Null,
        Err(_) => wrong_type_reply(),
    }
}

impl CommandModel {
    /// The reply to the command on the store `es`.
    pub open spec fn reply(self, es: Seq<(Seq<u8>, ValueModel)>) -> Frame {
        match self {
            CommandModel::Get { key } => found(scalar_at(es, key)),
            CommandModel::SetKey { .. } => ok_reply(),
            CommandModel::HGet { key, field } => found(field_at(es, key, field)),
            CommandModel::HSet { key, .. } => if hash_at(es, key) is Err {
                wrong_type_reply()
            } else {
                ok_reply()
            },
            CommandModel::HGetAll { key } => match hash_at(es, key) {
                Ok(Some(h)) => Frame::Mapping(h),
                Ok(None) => Frame::Mapping(Seq::empty()),
                Err(_) => wrong_type_reply(),
            },
        }
    }

    /// The store after the command has run on the store `es`.
    pub open spec fn effect(self, es: Seq<(Seq<u8>, ValueModel)>) -> Seq<(Seq<u8>, ValueModel)> {
        match self {
            CommandModel::SetKey { key, value } => put(es, key, ValueModel::Scalar(value)),
            CommandModel::HSet { key, field, value } => with_field(es, key, field, value),
            _ => es,
        }
    }
}

fn lower(b: u8) -> (r: u8)
    ensures
        r == to_lower(b),
{
    if 65 <= b && b <= 90 {
        b + 32
    } else {
        b
    }
}

/// Whether `name` spells `word` in any mix of case.
fn is_word(name: &[u8], word: &str) -> (r: bool)
    ensures
        r == spells(name@, word.spec_bytes()),
{
    let letters = word.as_bytes();
    if name.len() != letters.len() {
        return false;
    }
    let mut i: usize = 0;
    while i < name.len()
        invariant
            i <= name.len(),
            name.len() == letters.len(),
            letters@ == word.spec_bytes(),
            forall|j: int| 0 <= j < i ==> to_lower(#[trigger] name[j]) == letters[j],
        decreases name.len() - i,
    {
        if lower(name[i]) != letters[i] {
            return false;
        }
        i += 1;
    }
    true
}

/// Whether every frame of `args` is a bulk string.
fn only_bulk(args: &Vec<RespFrame>) -> (r: bool)
    ensures
        r == all_bulk(frames_view(args)),
{
    let mut i: usize = 0;
    while i < args.len()
        invariant
            i <= args.len(),
            forall|j: int| 0 <= j < i ==> (#[trigger] frames_view(args)[j]) is BulkString,
        decreases args.len() - i,
    {
        match &args[i] {
            RespFrame::BulkString(_) => {},
            _ => {
                assert(!(frames_view(args)[i as int] is BulkString));
                return false;
            },
        }
        i += 1;
    }
    true
}

/// The bytes of the bulk string at index `i`.
fn bulk_arg(args: &Vec<RespFrame>, i: usize) -> (bytes: Vec<u8>)
    requires
        i < args.len(),
        all_bulk(frames_view(args)),
    ensures
        bytes@ == arg(frames_view(args), i as int),
{
    assert(frames_view(args)[i as int] is BulkString);
    match &args[i] {
        RespFrame::BulkString(b) => b.0.clone(),
        _ => Vec::new(),
    }
}

impl Command {
    /// Reads a request frame as a command.
    pub fn try_from(frame: RespFrame) -> (r: Result<Command, CommandError>)
        ensures
            match interpret(frame@) {
                Ok(c) => r matches Ok(command) && command@ == c,
                Err(e) => r == Err::<Command, CommandError>(e),
            },
    {
        let args: Vec<RespFrame> = match frame {
            RespFrame::Array(a) => a.0,
            _ => {
                return Err(CommandError::InvalidShape);
            },
        };
        if args.len() == 0 || !only_bulk(&args) {
            return Err(CommandError::InvalidShape);
        }
        let name: Vec<u8> = bulk_arg(&args, 0);
        let count: usize = args.len();
        if is_word(name.as_slice(), "get") {
            if count != 2 {
                return Err(CommandError::WrongArity);
            }
            Ok(Command::Get { key: bulk_arg(&args, 1) })
        } else if is_word(name.as_slice(), "set") {
            if count != 3 {
                return Err(CommandError::WrongArity);
            }
            Ok(Command::SetKey { key: bulk_arg(&args, 1), value: args[2].clone() })
        } else if is_word(name.as_slice(), "hget") {
            if count != 3 {
                return Err(CommandError::WrongArity);
            }
            Ok(Command::HGet { key: bulk_arg(&args, 1), field: bulk_arg(&args, 2) })
        } else if is_word(name.as_slice(), "hset") {
            if count != 4 {
                return Err(CommandError::WrongArity);
            }
            Ok(
                Command::HSet {
                    key: bulk_arg(&args, 1),
                    field: bulk_arg(&args, 2),
                    value: args[3].clone(),
                },
            )
        } else if is_word(name.as_slice(), "hgetall") {
            if count != 2 {
                return Err(CommandError::WrongArity);
            }
            Ok(Command::HGetAll { key: bulk_arg(&args, 1) })
        } else {
            Err(CommandError::UnknownCommand)
        }
    }

    /// Runs the command on the store and hands back the reply. A command
    /// on a key that holds the other kind of value changes nothing and
    /// answers with an error frame.
    pub fn execute(self, backend: &mut Backend) -> (reply: RespFrame)
        ensures
            reply@ == self@.reply(old(backend)@),
            final(backend)@ == self@.effect(old(backend)@),
            keys_ascending(old(backend)@) ==> keys_ascending(final(backend)@),
    {
        match self {
            Command::Get { key } => answer(backend.get(key.as_slice())),
            Command::SetKey { key, value } => {
                backend.set(key, value);
                ok()
            },
            Command::HGet { key, field } => answer(backend.hget(key.as_slice(), field.as_slice())),
            Command::HSet { key, field, value } => match backend.hset(key, field, value) {
                Ok(()) => ok(),
                Err(_) => wrong_type(),
            },
            Command::HGetAll { key } => match backend.hgetall(key.as_slice()) {
                Ok(Some(h)) => RespFrame::Mapping(h),
                Ok(None) => RespFrame::Mapping(RespMap::new()),
                Err(_) => wrong_type(),
            },
        }
    }
}

fn ok() -> (reply: RespFrame)
    ensures
        reply@ == ok_reply(),
{
    RespFrame::SimpleString(SimpleString::new("OK"))
}

fn wrong_type() -> (reply: RespFrame)
    ensures
        reply@ == wrong_type_reply(),
{
    RespFrame::Error(
        SimpleError::new("WRONGTYPE Operation against a key holding the wrong kind of value"),
    )
}

/// The reply that hands out what was looked up.
fn answer(r: Result<Option<RespFrame>, WrongType>) -> (reply: RespFrame)
    ensures
        reply@ == found(
            match r {
                Ok(Some(f)) => Ok(Some(f@)),
                Ok(None) => Ok(None),
                Err(e) => Err(e),
            },
        ),
{
    match r {
        Ok(Some(f)) => f,
        Ok(None) => RespFrame::Null(RespNull),
        Err(_) => wrong_type(),
    }
}

} // verus!
