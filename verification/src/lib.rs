//! A codec for a line-framed, length-prefixed key-value wire protocol:
//! incremental decoding of frames out of a growing byte buffer, canonical
//! encoding of frames, and the command layer on top of decoded arrays.

pub mod backend;
pub mod buffer;
pub mod cmd;
pub mod decimal;
pub mod resp;
pub mod text;

pub use backend::Backend;
pub use cmd::{
    eq_ignore_case, extract_args, resp_ok, validate_command, Command, CommandError, Get, SetCmd,
};
pub use resp::array::{RespArray, RespNullArray};
pub use resp::bulk_string::{BulkString, RespNullBulkString};
pub use resp::frame::RespFrame;
pub use resp::simple_error::SimpleError;
pub use resp::simple_string::SimpleString;
pub use resp::{
    calc_total_length, extract_fixed_data, extract_simple_frame_data, parse_length,
    peek_fixed_data, RespError,
};
