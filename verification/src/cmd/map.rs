//! `GET` and `SET`: how each is read out of an array and what each does.

use crate::backend::Backend;
use crate::cmd::{
    eq_ignore_case, extract_args, get_name_bytes, get_request, key_of, reply_to, request_of,
    resp_ok, set_name_bytes, set_request, store_after, validate_command, Command, CommandError,
    Get, SetCmd,
};
use crate::resp::array::RespArray;
use crate::resp::bulk_string::RespNullBulkString;
use crate::resp::frame::{lemma_views, RespFrame};
use vstd::prelude::*;
use vstd::std_specs::convert::TryFromSpecImpl;

verus! {

/// Reads a key out of an argument: the text of a bulk string that is UTF-8.
fn key_from(frame: RespFrame) -> (res: Result<String, CommandError>)
    ensures
        match key_of(frame@) {
            Ok(key) => res is Ok && res->Ok_0@ == key,
            Err(e) => res is Err && res->Err_0 == e,
        },
{
    match frame {
        RespFrame::BulkString(key) => match String::from_utf8(key.0) {
            Ok(key) => Ok(key),
            Err(_) => Err(CommandError::Utf8Error),
        },
        _ => Err(CommandError::InvalidArgument),
    }
}

impl TryFrom<RespArray> for Get {
    type Error = CommandError;

    /// Reads a `GET` out of an array: the name in any case and exactly one
    /// argument, a bulk string that holds the key in UTF-8.
    fn try_from(value: RespArray) -> (res: Result<Get, CommandError>)
        ensures
            match get_request(value@) {
                Ok(request) => res is Ok && res->Ok_0@ == request,
                Err(e) => res is Err && res->Err_0 == e,
            },
            value@.len() != 2 ==> res == Err::<Get, CommandError>(CommandError::InvalidArgument),
    {
        let name = get_name_bytes();
        match validate_command(&value, name.as_slice(), 1) {
            Ok(()) => {},
            Err(e) => {
                return Err(e);
            },
        }
        proof {
            lemma_views(value.0@);
        }
        let mut args = extract_args(value, 1);
        match key_from(args.remove(0)) {
            Ok(key) => Ok(Get { key }),
            Err(e) => Err(e),
        }
    }
}

impl TryFromSpecImpl<RespArray> for Get {
    open spec fn obeys_try_from_spec() -> bool {
        false
    }

    open spec fn try_from_spec(value: RespArray) -> Result<Self, CommandError> {
        arbitrary()
    }
}

impl Get {
    /// Looks the key up: the value that was last set for it, or the null
    /// bulk string where there is none.
    pub fn execute(self, backend: &Backend) -> (reply: RespFrame)
        ensures
            reply@ == reply_to(self@, backend@),
    {
        match backend.get(&self.key) {
            Some(value) => value,
            None => RespFrame::NullBulkString(RespNullBulkString),
        }
    }
}

impl TryFrom<RespArray> for SetCmd {
    type Error = CommandError;

    /// Reads a `SET` out of an array: the name in any case and exactly two
    /// arguments, a bulk string that holds the key in UTF-8 and a value that
    /// may be any frame.
    fn try_from(value: RespArray) -> (res: Result<SetCmd, CommandError>)
        ensures
            match set_request(value@) {
                Ok(request) => res is Ok && res->Ok_0@ == request,
                Err(e) => res is Err && res->Err_0 == e,
            },
            value@.len() != 3 ==> res == Err::<SetCmd, CommandError>(
                CommandError::InvalidArgument,
            ),
    {
        let name = set_name_bytes();
        match validate_command(&value, name.as_slice(), 2) {
            Ok(()) => {},
            Err(e) => {
                return Err(e);
            },
        }
        proof {
            lemma_views(value.0@);
        }
        let mut args = extract_args(value, 1);
        let key = args.remove(0);
        let value = args.remove(0);
        match key_from(key) {
            Ok(key) => Ok(SetCmd { key, value }),
            Err(e) => Err(e),
        }
    }
}

impl TryFromSpecImpl<RespArray> for SetCmd {
    open spec fn obeys_try_from_spec() -> bool {
        false
    }

    open spec fn try_from_spec(value: RespArray) -> Result<Self, CommandError> {
        arbitrary()
    }
}

impl SetCmd {
    /// Stores the value under the key, over whatever was there, and replies
    /// `OK`.
    pub fn execute(self, backend: &mut Backend) -> (reply: RespFrame)
        ensures
            reply@ == reply_to(self@, old(backend)@),
            final(backend)@ == store_after(self@, old(backend)@),
    {
        backend.set(self.key, self.value);
        resp_ok()
    }
}

impl TryFrom<RespArray> for Command {
    type Error = CommandError;

    /// Reads a command out of an array. The first element, a bulk string,
    /// names the command in any case; the command of that name reads the
    /// rest.
    fn try_from(value: RespArray) -> (res: Result<Command, CommandError>)
        ensures
            match request_of(value@) {
                Ok(request) => res is Ok && res->Ok_0@ == request,
                Err(e) => res is Err && res->Err_0 == e,
            },
            res matches Ok(Command::Get(_)) ==> value@.len() == 2,
            res matches Ok(Command::SetCmd(_)) ==> value@.len() == 3,
    {
        proof {
            lemma_views(value.0@);
        }
        if value.0.len() == 0 {
            return Err(CommandError::InvalidCommand);
        }
        let get = get_name_bytes();
        let set = set_name_bytes();
        let (is_get, is_set) = match &value.0[0] {
            RespFrame::BulkString(given) => (
                eq_ignore_case(given.0.as_slice(), get.as_slice()),
                eq_ignore_case(given.0.as_slice(), set.as_slice()),
            ),
            _ => (false, false),
        };
        if is_get {
            match Get::try_from(value) {
                Ok(get) => Ok(Command::Get(get)),
                Err(e) => Err(e),
            }
        } else if is_set {
            match SetCmd::try_from(value) {
                Ok(set) => Ok(Command::SetCmd(set)),
                Err(e) => Err(e),
            }
        } else {
            Err(CommandError::InvalidCommand)
        }
    }
}

impl TryFromSpecImpl<RespArray> for Command {
    open spec fn obeys_try_from_spec() -> bool {
        false
    }

    open spec fn try_from_spec(value: RespArray) -> Result<Self, CommandError> {
        arbitrary()
    }
}

impl Command {
    /// Runs the command against the store and gives the reply.
    pub fn execute(self, backend: &mut Backend) -> (reply: RespFrame)
        ensures
            reply@ == reply_to(self@, old(backend)@),
            final(backend)@ == store_after(self@, old(backend)@),
    {
        match self {
            Command::Get(get) => get.execute(backend),
            Command::SetCmd(set) => set.execute(backend),
        }
    }
}

} // verus!
