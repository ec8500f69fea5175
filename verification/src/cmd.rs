//! Commands: requests that a client sends as an array of frames, and what
//! each does to the store.

pub mod map;

use crate::resp::array::RespArray;
use crate::resp::frame::{lemma_views, views, RespFrame};
use crate::resp::simple_string::SimpleString;
use crate::resp::wire::Frame;
use vstd::prelude::*;
use vstd::utf8::{decode_utf8, valid_utf8};

verus! {

/// Why an array is no command.
#[derive(Debug, PartialEq, Eq, Clone, Copy, Structural)]
pub enum CommandError {
    /// The array is empty, or its first element is no bulk string, or it
    /// names another command.
    InvalidCommand,
    /// The number of arguments is not what the command takes, or an
    /// argument is no frame of the kind the command takes.
    InvalidArgument,
    /// A key is not UTF-8.
    Utf8Error,
}

impl CommandError {
    /// What `message` says of each error.
    pub open spec fn message_text(self) -> Seq<char> {
        match self {
            CommandError::InvalidCommand => "Invalid command"@,
            CommandError::InvalidArgument => "Invalid argument"@,
            CommandError::Utf8Error => "Invalid key: not UTF-8"@,
        }
    }

    /// The error in words, for the reply to the client.
    pub fn message(&self) -> (text: String)
        ensures
            text@ == self.message_text(),
    {
        match self {
            CommandError::InvalidCommand => "Invalid command".to_owned(),
            CommandError::InvalidArgument => "Invalid argument".to_owned(),
            CommandError::Utf8Error => "Invalid key: not UTF-8".to_owned(),
        }
    }
}

/// `GET <key>`
#[derive(Debug, PartialEq)]
pub struct Get {
    pub key: String,
}

/// `SET <key> <value>`
#[derive(Debug, PartialEq)]
pub struct SetCmd {
    pub key: String,
    pub value: RespFrame,
}

/// A request that a client can make.
#[derive(Debug, PartialEq)]
pub enum Command {
    Get(Get),
    SetCmd(SetCmd),
}

/// A request as a mathematical value.
pub enum Request {
    Get { key: Seq<char> },
    SetCmd { key: Seq<char>, value: Frame },
}

impl View for Get {
    type V = Request;

    open spec fn view(&self) -> Request {
        Request::Get { key: self.key@ }
    }
}

impl View for SetCmd {
    type V = Request;

    open spec fn view(&self) -> Request {
        Request::SetCmd { key: self.key@, value: self.value@ }
    }
}

impl View for Command {
    type V = Request;

    open spec fn view(&self) -> Request {
        match self {
            Command::Get(get) => get@,
            Command::SetCmd(set) => set@,
        }
    }
}

/// `get`
pub open spec fn get_name() -> Seq<u8> {
    seq![103u8, 101u8, 116u8]
}

/// `set`
pub open spec fn set_name() -> Seq<u8> {
    seq![115u8, 101u8, 116u8]
}

/// The lower-case form of an ASCII capital; any other byte as it is.
pub open spec fn ascii_lower(b: u8) -> u8 {
    if 65 <= b <= 90 {
        (b + 32) as u8
    } else {
        b
    }
}

/// Whether two names are the same but for the case of ASCII letters.
pub open spec fn same_name(a: Seq<u8>, b: Seq<u8>) -> bool {
    a.len() == b.len() && forall|i: int|
        0 <= i < a.len() ==> ascii_lower(#[trigger] a[i]) == ascii_lower(b[i])
}

/// What every command asks of its array: that it holds the name and
/// exactly `n_args` arguments, and its first element is a bulk string that
/// spells the name in any case. The number of elements is looked at first.
pub open spec fn validated_command(items: Seq<Frame>, name: Seq<u8>, n_args: nat) -> Result<
    (),
    CommandError,
> {
    if items.len() != n_args + 1 {
        Err(CommandError::InvalidArgument)
    } else {
        match items[0] {
            Frame::BulkString(given) => if same_name(given, name) {
                Ok(())
            } else {
                Err(CommandError::InvalidCommand)
            },
            _ => Err(CommandError::InvalidCommand),
        }
    }
}

/// The key that a frame gives: the text of a bulk string that is UTF-8.
pub open spec fn key_of(frame: Frame) -> Result<Seq<char>, CommandError> {
    match frame {
        Frame::BulkString(bytes) => if valid_utf8(bytes) {
            Ok(decode_utf8(bytes))
        } else {
            Err(CommandError::Utf8Error)
        },
        _ => Err(CommandError::InvalidArgument),
    }
}

/// The `GET` request that an array makes: the name and one key.
pub open spec fn get_request(items: Seq<Frame>) -> Result<Request, CommandError> {
    match validated_command(items, get_name(), 1) {
        Ok(()) => match key_of(items[1]) {
            Ok(key) => Ok(Request::Get { key }),
            Err(e) => Err(e),
        },
        Err(e) => Err(e),
    }
}

/// The `SET` request that an array makes: the name, one key, and a value
/// that may be any frame.
pub open spec fn set_request(items: Seq<Frame>) -> Result<Request, CommandError> {
    match validated_command(items, set_name(), 2) {
        Ok(()) => match key_of(items[1]) {
            Ok(key) => Ok(Request::SetCmd { key, value: items[2] }),
            Err(e) => Err(e),
        },
        Err(e) => Err(e),
    }
}

/// The request that an array makes: its first element names the command,
/// and the command decides on the rest.
pub open spec fn request_of(items: Seq<Frame>) -> Result<Request, CommandError> {
    if items.len() == 0 {
        Err(CommandError::InvalidCommand)
    } else {
        match items[0] {
            Frame::BulkString(given) => if same_name(given, get_name()) {
                get_request(items)
            } else if same_name(given, set_name()) {
                set_request(items)
            } else {
                Err(CommandError::InvalidCommand)
            },
            _ => Err(CommandError::InvalidCommand),
        }
    }
}

/// Arity validation. An array is a `GET` only with the name and exactly one
/// key, and a `SET` only with the name, one key and one value: any other
/// number of elements is refused as an invalid argument, whatever the
/// elements are.
pub proof fn lemma_arity(items: Seq<Frame>)
    ensures
        items.len() != 2 ==> get_request(items) == Err::<Request, CommandError>(
            CommandError::InvalidArgument,
        ),
        items.len() != 3 ==> set_request(items) == Err::<Request, CommandError>(
            CommandError::InvalidArgument,
        ),
        request_of(items) matches Ok(Request::Get { key }) ==> items.len() == 2,
        request_of(items) matches Ok(Request::SetCmd { key, value }) ==> items.len() == 3,
{
}

/// The frame that answers a request, given what the store holds: for `GET`
/// the value of the key, or the null bulk string where there is none; for
/// `SET` the simple string `OK`.
pub open spec fn reply_to(request: Request, store: Map<Seq<char>, Frame>) -> Frame {
    match request {
        Request::Get { key } => if store.contains_key(key) {
            store[key]
        } else {
            Frame::NullBulkString
        },
        Request::SetCmd { key, value } => Frame::SimpleString(seq!['O', 'K']),
    }
}

/// What the store holds after a request: `SET` puts the value under the
/// key, over whatever was there; `GET` changes nothing.
pub open spec fn store_after(request: Request, store: Map<Seq<char>, Frame>) -> Map<
    Seq<char>,
    Frame,
> {
    match request {
        Request::Get { key } => store,
        Request::SetCmd { key, value } => store.insert(key, value),
    }
}

/// The reply to every `SET`: the simple string `OK`.
pub fn resp_ok() -> (r: RespFrame)
    ensures
        r@ == Frame::SimpleString(seq!['O', 'K']),
{
    let text = "OK".to_owned();
    proof {
        reveal_strlit("OK");
        assert(text@ =~= seq!['O', 'K']);
    }
    RespFrame::SimpleString(SimpleString::new(text))
}

/// The name of `GET`, in lower case.
pub(crate) fn get_name_bytes() -> (r: [u8; 3])
    ensures
        r@ == get_name(),
{
    let name: [u8; 3] = [103, 101, 116];
    assert(name@ =~= get_name());
    name
}

/// The name of `SET`, in lower case.
pub(crate) fn set_name_bytes() -> (r: [u8; 3])
    ensures
        r@ == set_name(),
{
    let name: [u8; 3] = [115, 101, 116];
    assert(name@ =~= set_name());
    name
}

fn to_ascii_lower(b: u8) -> (r: u8)
    ensures
        r == ascii_lower(b),
{
    if 65 <= b && b <= 90 {
        b + 32
    } else {
        b
    }
}

/// Compares two names without regard to the case of ASCII letters.
pub fn eq_ignore_case(a: &[u8], b: &[u8]) -> (r: bool)
    ensures
        r == same_name(a@, b@),
{
    let n: usize = a.len();
    if n != b.len() {
        return false;
    }
    let mut i: usize = 0;
    while i < n
        invariant
            i <= n,
            n == a@.len(),
            n == b@.len(),
            forall|j: int| 0 <= j < i ==> ascii_lower(#[trigger] a@[j]) == ascii_lower(b@[j]),
        decreases n - i,
    {
        if to_ascii_lower(a[i]) != to_ascii_lower(b[i]) {
            return false;
        }
        i = i + 1;
    }
    true
}

/// Validates what every command asks of its array: that it holds the name and
/// exactly `n_args` arguments, and that its first element is a bulk string
/// that spells `name` in any case.
pub fn validate_command(value: &RespArray, name: &[u8], n_args: usize) -> (res: Result<
    (),
    CommandError,
>)
    ensures
        res == validated_command(value@, name@, n_args as nat),
{
    proof {
        lemma_views(value.0@);
    }
    let count: usize = value.0.len();
    if n_args == usize::MAX || count != n_args + 1 {
        return Err(CommandError::InvalidArgument);
    }
    match &value.0[0] {
        RespFrame::BulkString(given) => {
            if eq_ignore_case(given.0.as_slice(), name) {
                Ok(())
            } else {
                Err(CommandError::InvalidCommand)
            }
        },
        _ => Err(CommandError::InvalidCommand),
    }
}

/// The elements of the array from `start` on; none where the array is
/// shorter than that.
pub fn extract_args(value: RespArray, start: usize) -> (args: Vec<RespFrame>)
    ensures
        views(args@) == if start <= value@.len() {
            value@.skip(start as int)
        } else {
            Seq::<Frame>::empty()
        },
        start <= value@.len() ==> args@ == value.0@.skip(start as int),
{
    let mut items = value.0;
    proof {
        lemma_views(items@);
    }
    if start > items.len() {
        return Vec::new();
    }
    let args = items.split_off(start);
    proof {
        lemma_views(args@);
        assert(views(args@) =~= value@.skip(start as int));
        assert(args@ =~= value.0@.skip(start as int));
    }
    args
}

} // verus!
