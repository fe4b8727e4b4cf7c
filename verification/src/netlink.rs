//! Netlink: the generic and the route dialect.
pub mod bindings;
pub mod generic;
pub mod laws;
pub mod recv;
pub mod rt;
pub mod send;
pub mod wire;

pub use generic::NetlinkGeneric;
pub use recv::{
    Attribute, AttributeIterator, AttributeType, MsgBuffer, MsgPart, PartIterator, SubHeader,
};
pub use rt::{IfLink, LinkEvIterator, NetlinkRoute};
pub use send::{MsgBuilder, NestBuilder, NlSerializer, ToAttr, MAX_NL_MSG_SIZE};

use vstd::prelude::*;
use vstd::std_specs::convert::FromSpecImpl;

verus! {

/// `nix::errno::Errno`: an error code of the operating system. Nothing is
/// known of such a value but its identity.
#[verifier::external_type_specification]
#[verifier::external_body]
pub struct ExErrno(nix::errno::Errno);

/// `std::io::Error`: an I/O failure. Nothing is known of such a value but
/// its identity.
#[verifier::external_type_specification]
#[verifier::external_body]
pub struct ExIoError(std::io::Error);

/// The error code that `nix` assigns to a raw `errno` value.
pub uninterp spec fn errno_of(raw: i32) -> nix::errno::Errno;

/// `nix::errno::from_i32`: maps a raw `errno` value to the code of that
/// number, and every number without a code to the unknown code. The mapping
/// is a table of the platform; the contract only gives it a name.
#[verifier::external_body]
fn errno_from_i32(raw: i32) -> (e: nix::errno::Errno)
    ensures
        e == errno_of(raw),
{
    nix::errno::from_i32(raw)
}

/// The text that `base64_light` gives for a sequence of bytes.
pub uninterp spec fn base64_text(bytes: Seq<u8>) -> Seq<char>;

/// `base64_light::base64_encode_bytes`: the Base64 text of the bytes, in the
/// standard alphabet and padded with `=`. The text is a function of the
/// bytes alone; the contract only gives it a name.
#[verifier::external_body]
pub(crate) fn base64_encode(bytes: &[u8]) -> (text: String)
    ensures
        text@ == base64_text(bytes@),
{
    base64_light::base64_encode_bytes(bytes)
}

/// `String::from_utf8`: the string that the bytes spell in UTF-8, and none
/// where they are no UTF-8.
#[verifier::external_body]
pub(crate) fn string_from_utf8(bytes: Vec<u8>) -> (text: Option<String>)
    ensures
        text is Some <==> vstd::utf8::valid_utf8(bytes@),
        text matches Some(s) ==> s@ == vstd::utf8::decode_utf8(bytes@),
{
    match String::from_utf8(bytes) {
        Ok(text) => Some(text),
        Err(_) => None,
    }
}

/// The `errno` value that an I/O error carries, if it carries one.
pub uninterp spec fn io_code_of(value: std::io::Error) -> Option<i32>;

/// `std::io::Error::raw_os_error`: the `errno` value that an I/O error
/// carries, if the operating system reported one. The value is read from
/// the error alone; the contract only gives it a name.
#[verifier::external_body]
fn io_raw_os_error(value: &std::io::Error) -> (r: Option<i32>)
    ensures
        r == io_code_of(*value),
{
    value.raw_os_error()
}

/// Everything that can go wrong in a Netlink exchange.
#[derive(Debug)]
pub enum Error {
    /// Fewer bytes were received than a header declares.
    Truncated,
    /// A dump ended without its closing message.
    MultipartNotDone,
    /// The kernel flagged the dump as interrupted: it should be asked again.
    Interrupted,
    /// The reply is malformed, or lacks a mandatory attribute.
    Invalid,
    /// The family offers no multicast group of that name.
    WrongGroupName,
    /// The multicast group has no usable identifier.
    InvalidGroupId,
    /// No WireGuard interface matches.
    NoInterfaceFound,
    /// Any other condition, with a hint for a human reader.
    Other(String),
    /// An error code of the operating system.
    OsError(nix::errno::Errno),
    /// An I/O error that carries no error code.
    IoError(std::io::Error),
}

/// The absolute value of an `errno` as the kernel reports it (negated),
/// saturating where it would not fit.
pub open spec fn errno_magnitude(errno: i32) -> i32 {
    if errno >= 0 {
        errno
    } else if errno == i32::MIN {
        i32::MAX
    } else {
        (-errno) as i32
    }
}

impl Error {
    /// The error for an I/O failure, given the `errno` value that it
    /// carries, if any.
    pub fn from_os_code(raw: Option<i32>, value: std::io::Error) -> (e: Error)
        ensures
            raw matches Some(code) ==> e == Error::OsError(errno_of(code)),
            raw is None ==> e == Error::IoError(value),
    {
        match raw {
            Some(code) => Error::OsError(errno_from_i32(code)),
            None => Error::IoError(value),
        }
    }

    /// The error for an I/O failure: its error code where it has one, else
    /// the failure itself.
    pub fn from_io(value: std::io::Error) -> (e: Error)
        ensures
            io_code_of(value) matches Some(code) ==> e == Error::OsError(errno_of(code)),
            io_code_of(value) is None ==> e == Error::IoError(value),
    {
        let raw = io_raw_os_error(&value);
        Error::from_os_code(raw, value)
    }
}

impl From<nix::errno::Errno> for Error {
    fn from(value: nix::errno::Errno) -> (e: Error) {
        Error::OsError(value)
    }
}

impl FromSpecImpl<nix::errno::Errno> for Error {
    open spec fn obeys_from_spec() -> bool {
        true
    }

    open spec fn from_spec(value: nix::errno::Errno) -> Error {
        Error::OsError(value)
    }
}

impl From<std::io::Error> for Error {
    fn from(value: std::io::Error) -> (e: Error) {
        Error::from_io(value)
    }
}

impl FromSpecImpl<std::io::Error> for Error {
    open spec fn obeys_from_spec() -> bool {
        true
    }

    open spec fn from_spec(value: std::io::Error) -> Error {
        match io_code_of(value) {
            Some(code) => Error::OsError(errno_of(code)),
            None => Error::IoError(value),
        }
    }
}

impl From<i32> for Error {
    fn from(errno: i32) -> (e: Error) {
        let code: i32 = if errno >= 0 {
            errno
        } else if errno == i32::MIN {
            i32::MAX
        } else {
            -errno
        };
        Error::OsError(errno_from_i32(code))
    }
}

impl FromSpecImpl<i32> for Error {
    open spec fn obeys_from_spec() -> bool {
        true
    }

    open spec fn from_spec(errno: i32) -> Error {
        Error::OsError(errno_of(errno_magnitude(errno)))
    }
}

} // verus!
