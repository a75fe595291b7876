//! The gateway: what each command of a client asks for.
//!
//! A request names a command by a token; the payload of the request holds
//! the fields of the command, short texts first, then bytes to the end.

use crate::entity::{parse_tag, AccessTag};
use crate::packet::{Request, RequestView};
use crate::short_text::ShortText;
use crate::utils::{ascii, bytes_of, parse_short_text, DecodeError, Decoder, DecoderUtils, Reader};
use vstd::prelude::*;
use vstd::slice::slice_to_vec;

verus! {

/// A command of a client, with its fields.
pub enum Command {
    /// `STOP`: close the connection.
    Stop,
    /// `PING`: send the payload back.
    Ping(Vec<u8>),
    /// `SET PRIVATE`: give a key of the client's own entity a value.
    SetPrivate { key: ShortText, value: Vec<u8> },
    /// `GET PRIVATE`: read a key of the client's own entity.
    GetPrivate { key: ShortText },
    /// `DEL PRIVATE`: take a key of the client's own entity away.
    DelPrivate { key: ShortText },
    /// `ACL`: set the access tag of a key of the client's own entity.
    Acl { key: ShortText, tag: AccessTag },
    /// `SET`: give a key of the entity named `target` a value.
    SetKey { target: ShortText, key: ShortText, value: Vec<u8> },
    /// `GET`: read a key of the entity named `target`.
    GetKey { target: ShortText, key: ShortText },
    /// `DEL`: delete a key of the entity named `target`.
    DelKey { target: ShortText, key: ShortText },
    /// `KEYS`: list the keys of the entity named `target`.
    Keys { target: ShortText },
    /// `NOTIFY`: publish a notification under the client's own name.
    Notify { key: ShortText, value: Vec<u8> },
    /// `LISTEN`: subscribe to the notifications of a topic.
    Listen { target: ShortText, key: ShortText },
    /// `OBSERVE`: subscribe to the events of a topic.
    Observe { target: ShortText, key: ShortText },
    /// `CALL`: call the entity named `target`.
    Call { target: ShortText, key: ShortText, payload: Vec<u8> },
    /// `RESPONSE`: answer a call with a result.
    Response(Vec<u8>),
    /// `EXCEPTION`: answer a call with a failure.
    Exception(Vec<u8>),
    /// A token that is no command.
    Unknown,
}

/// What a `Command` holds.
pub enum CommandView {
    Stop,
    Ping(Seq<u8>),
    SetPrivate { key: Seq<u8>, value: Seq<u8> },
    GetPrivate { key: Seq<u8> },
    DelPrivate { key: Seq<u8> },
    Acl { key: Seq<u8>, tag: AccessTag },
    SetKey { target: Seq<u8>, key: Seq<u8>, value: Seq<u8> },
    GetKey { target: Seq<u8>, key: Seq<u8> },
    DelKey { target: Seq<u8>, key: Seq<u8> },
    Keys { target: Seq<u8> },
    Notify { key: Seq<u8>, value: Seq<u8> },
    Listen { target: Seq<u8>, key: Seq<u8> },
    Observe { target: Seq<u8>, key: Seq<u8> },
    Call { target: Seq<u8>, key: Seq<u8>, payload: Seq<u8> },
    Response(Seq<u8>),
    Exception(Seq<u8>),
    Unknown,
}

impl View for Command {
    type V = CommandView;

    open spec fn view(&self) -> CommandView {
        match self {
            Command::Stop => CommandView::Stop,
            Command::Ping(payload) => CommandView::Ping(payload@),
            Command::SetPrivate { key, value } => CommandView::SetPrivate {
                key: key@,
                value: value@,
            },
            Command::GetPrivate { key } => CommandView::GetPrivate { key: key@ },
            Command::DelPrivate { key } => CommandView::DelPrivate { key: key@ },
            Command::Acl { key, tag } => CommandView::Acl { key: key@, tag: *tag },
            Command::SetKey { target, key, value } => CommandView::SetKey {
                target: target@,
                key: key@,
                value: value@,
            },
            Command::GetKey { target, key } => CommandView::GetKey { target: target@, key: key@ },
            Command::DelKey { target, key } => CommandView::DelKey { target: target@, key: key@ },
            Command::Keys { target } => CommandView::Keys { target: target@ },
            Command::Notify { key, value } => CommandView::Notify { key: key@, value: value@ },
            Command::Listen { target, key } => CommandView::Listen { target: target@, key: key@ },
            Command::Observe { target, key } => CommandView::Observe { target: target@, key: key@ },
            Command::Call { target, key, payload } => CommandView::Call {
                target: target@,
                key: key@,
                payload: payload@,
            },
            Command::Response(payload) => CommandView::Response(payload@),
            Command::Exception(payload) => CommandView::Exception(payload@),
            Command::Unknown => CommandView::Unknown,
        }
    }
}

/// The payload of a command of one short text and bytes to the end.
pub open spec fn one_field(payload: Seq<u8>) -> Result<(Seq<u8>, Seq<u8>), DecodeError> {
    match parse_short_text(payload) {
        Ok((first, taken)) => Ok((first, payload.skip(taken as int))),
        Err(e) => Err(e),
    }
}

/// The payload of a command of two short texts and bytes to the end.
pub open spec fn two_fields(payload: Seq<u8>) -> Result<
    (Seq<u8>, Seq<u8>, Seq<u8>),
    DecodeError,
> {
    match one_field(payload) {
        Ok((first, rest)) => match one_field(rest) {
            Ok((second, rest)) => Ok((first, second, rest)),
            Err(e) => Err(e),
        },
        Err(e) => Err(e),
    }
}

/// The command that a request asks for, or the error for which its payload
/// cannot be read.
pub open spec fn command_of(request: RequestView) -> Result<CommandView, DecodeError> {
    let token = request.command;
    let payload = request.payload;
    if token == ascii("STOP") {
        Ok(CommandView::Stop)
    } else if token == ascii("PING") {
        Ok(CommandView::Ping(payload))
    } else if token == ascii("SET PRIVATE") {
        match one_field(payload) {
            Ok((key, value)) => Ok(CommandView::SetPrivate { key, value }),
            Err(e) => Err(e),
        }
    } else if token == ascii("GET PRIVATE") {
        match one_field(payload) {
            Ok((key, _)) => Ok(CommandView::GetPrivate { key }),
            Err(e) => Err(e),
        }
    } else if token == ascii("DEL PRIVATE") {
        match one_field(payload) {
            Ok((key, _)) => Ok(CommandView::DelPrivate { key }),
            Err(e) => Err(e),
        }
    } else if token == ascii("ACL") {
        match one_field(payload) {
            Ok((key, rest)) => match parse_tag(rest) {
                Ok((tag, _)) => Ok(CommandView::Acl { key, tag }),
                Err(e) => Err(e),
            },
            Err(e) => Err(e),
        }
    } else if token == ascii("SET") {
        match two_fields(payload) {
            Ok((target, key, value)) => Ok(CommandView::SetKey { target, key, value }),
            Err(e) => Err(e),
        }
    } else if token == ascii("GET") {
        match two_fields(payload) {
            Ok((target, key, _)) => Ok(CommandView::GetKey { target, key }),
            Err(e) => Err(e),
        }
    } else if token == ascii("DEL") {
        match two_fields(payload) {
            Ok((target, key, _)) => Ok(CommandView::DelKey { target, key }),
            Err(e) => Err(e),
        }
    } else if token == ascii("KEYS") {
        match one_field(payload) {
            Ok((target, _)) => Ok(CommandView::Keys { target }),
            Err(e) => Err(e),
        }
    } else if token == ascii("NOTIFY") {
        match one_field(payload) {
            Ok((key, value)) => Ok(CommandView::Notify { key, value }),
            Err(e) => Err(e),
        }
    } else if token == ascii("LISTEN") {
        match two_fields(payload) {
            Ok((target, key, _)) => Ok(CommandView::Listen { target, key }),
            Err(e) => Err(e),
        }
    } else if token == ascii("OBSERVE") {
        match two_fields(payload) {
            Ok((target, key, _)) => Ok(CommandView::Observe { target, key }),
            Err(e) => Err(e),
        }
    } else if token == ascii("CALL") {
        match two_fields(payload) {
            Ok((target, key, payload)) => Ok(CommandView::Call { target, key, payload }),
            Err(e) => Err(e),
        }
    } else if token == ascii("RESPONSE") {
        Ok(CommandView::Response(payload))
    } else if token == ascii("EXCEPTION") {
        Ok(CommandView::Exception(payload))
    } else {
        Ok(CommandView::Unknown)
    }
}

/// Whether `token` is the ASCII text `name`.
fn is_token(token: &ShortText, name: &str) -> (same: bool)
    requires
        name.is_ascii(),
    ensures
        same == (token@ == ascii(name)),
{
    token.eq_bytes(bytes_of(name).as_slice())
}

/// What is left in `reader`, as a vector.
fn rest_of(reader: &Reader) -> (rest: Vec<u8>)
    ensures
        rest@ == reader@,
{
    let mut probe = *reader;
    let count = probe.remaining();
    match probe.read_exact(count) {
        Ok(bytes) => {
            assert(bytes@ =~= reader@);
            slice_to_vec(bytes)
        },
        Err(_) => Vec::new(),
    }
}

/// Reads the command that `request` asks for.
pub fn parse_command(request: &Request) -> (command: Result<Command, DecodeError>)
    ensures
        match command_of(request@) {
            Ok(asked) => command is Ok && command->Ok_0@ == asked,
            Err(e) => command is Err && command->Err_0 == e,
        },
{
    proof {
        reveal_strlit("STOP");
        reveal_strlit("PING");
        reveal_strlit("SET PRIVATE");
        reveal_strlit("GET PRIVATE");
        reveal_strlit("DEL PRIVATE");
        reveal_strlit("ACL");
        reveal_strlit("SET");
        reveal_strlit("GET");
        reveal_strlit("DEL");
        reveal_strlit("KEYS");
        reveal_strlit("NOTIFY");
        reveal_strlit("LISTEN");
        reveal_strlit("OBSERVE");
        reveal_strlit("CALL");
        reveal_strlit("RESPONSE");
        reveal_strlit("EXCEPTION");
    }
    let token = &request.command;
    let mut reader = Reader::new(request.payload.as_slice());
    if is_token(token, "STOP") {
        Ok(Command::Stop)
    } else if is_token(token, "PING") {
        Ok(Command::Ping(rest_of(&reader)))
    } else if is_token(token, "SET PRIVATE") {
        let key = reader.decode_short_text()?;
        Ok(Command::SetPrivate { key, value: rest_of(&reader) })
    } else if is_token(token, "GET PRIVATE") {
        let key = reader.decode_short_text()?;
        Ok(Command::GetPrivate { key })
    } else if is_token(token, "DEL PRIVATE") {
        let key = reader.decode_short_text()?;
        Ok(Command::DelPrivate { key })
    } else if is_token(token, "ACL") {
        let key = reader.decode_short_text()?;
        let tag: AccessTag = reader.decode()?;
        Ok(Command::Acl { key, tag })
    } else if is_token(token, "SET") {
        let target = reader.decode_short_text()?;
        let key = reader.decode_short_text()?;
        Ok(Command::SetKey { target, key, value: rest_of(&reader) })
    } else if is_token(token, "GET") {
        let target = reader.decode_short_text()?;
        let key = reader.decode_short_text()?;
        Ok(Command::GetKey { target, key })
    } else if is_token(token, "DEL") {
        let target = reader.decode_short_text()?;
        let key = reader.decode_short_text()?;
        Ok(Command::DelKey { target, key })
    } else if is_token(token, "KEYS") {
        let target = reader.decode_short_text()?;
        Ok(Command::Keys { target })
    } else if is_token(token, "NOTIFY") {
        let key = reader.decode_short_text()?;
        Ok(Command::Notify { key, value: rest_of(&reader) })
    } else if is_token(token, "LISTEN") {
        let target = reader.decode_short_text()?;
        let key = reader.decode_short_text()?;
        Ok(Command::Listen { target, key })
    } else if is_token(token, "OBSERVE") {
        let target = reader.decode_short_text()?;
        let key = reader.decode_short_text()?;
        Ok(Command::Observe { target, key })
    } else if is_token(token, "CALL") {
        let target = reader.decode_short_text()?;
        let key = reader.decode_short_text()?;
        Ok(Command::Call { target, key, payload: rest_of(&reader) })
    } else if is_token(token, "RESPONSE") {
        Ok(Command::Response(rest_of(&reader)))
    } else if is_token(token, "EXCEPTION") {
        Ok(Command::Exception(rest_of(&reader)))
    } else {
        Ok(Command::Unknown)
    }
}

} // verus!
