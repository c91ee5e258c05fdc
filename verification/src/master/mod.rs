//! The master's side of the bus, free of the bus itself.
//!
//! [`Master`] holds the requests that wait for an answer. A [`Topic`] reserves one token
//! in it, builds the frames to send and takes the answers that [`Master::deliver`] matched
//! to its token. [`Answer`] pairs the data that came back with the number of slaves that
//! executed the command, and [`Mapping`] lays application records out over the virtual
//! memory.
use crate::command::MAX_COMMAND;
use crate::registers::CommandError;
use vstd::prelude::*;

pub mod accessing;
pub mod mapping;
pub mod networking;

pub use accessing::{Answer, Host, Stream};
pub use mapping::{BufferMapping, Mapping};
pub use networking::{Address, Master, Pending, Token, Topic};

verus! {

/// `std::io::Error`, what a failed read or write of the bus gives.
#[verifier::external_type_specification]
#[verifier::external_body]
pub struct ExIoError(std::io::Error);

/// What can go wrong with a command.
#[derive(Debug)]
pub enum Error {
    /// The bus failed to read or write.
    Bus(std::io::Error),
    /// A slave refused the command; its error register tells why.
    Slave(CommandError),
    /// The master found the command or its answer at fault.
    Master(&'static str),
    /// No answer came in the time allowed.
    Timeout,
}

impl Error {
    /// The error is one that the master found, with this message.
    pub open spec fn is_master(&self, message: &str) -> bool {
        self matches Error::Master(text) && text@ == message@
    }

    /// One line that says what kind of error this is.
    pub fn describe(&self) -> (line: &'static str)
        ensures
            line@ == match self {
                Error::Bus(_) => "problem with uart bus"@,
                Error::Slave(_) => "problem detected on slave side"@,
                Error::Master(_) => "problem detected on master side"@,
                Error::Timeout => "no data arrived in expected time"@,
            },
    {
        match self {
            Error::Bus(_) => "problem with uart bus",
            Error::Slave(_) => "problem detected on slave side",
            Error::Master(_) => "problem detected on master side",
            Error::Timeout => "no data arrived in expected time",
        }
    }
}

impl From<std::io::Error> for Error {
    /// A failure of the bus.
    fn from(error: std::io::Error) -> (made: Error) {
        Error::Bus(error)
    }
}

impl vstd::std_specs::convert::FromSpecImpl<std::io::Error> for Error {
    open spec fn obeys_from_spec() -> bool {
        true
    }

    open spec fn from_spec(error: std::io::Error) -> Error {
        Error::Bus(error)
    }
}

/// The size of a message of `size` data bytes, as the header carries it. A message holds
/// at most `MAX_COMMAND` data bytes.
pub fn usize_to_message(size: usize) -> (message: Result<u16, Error>)
    ensures
        message.is_ok() == (size <= MAX_COMMAND),
        message matches Ok(n) ==> n == size,
        message matches Err(e) ==> e.is_master("data is longer than maximum allowed message"),
{
    if size <= MAX_COMMAND {
        Ok(size as u16)
    } else {
        Err(Error::Master("data is longer than maximum allowed message"))
    }
}

} // verus!
