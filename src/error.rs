use vstd::prelude::*;

verus! {

/// Declares std's I/O error so that it can travel inside [`Error`].
#[verifier::external_type_specification]
#[verifier::external_body]
pub struct ExIoError(std::io::Error);

/// Library error
#[derive(Debug)]
pub enum Error {
    /// Invalid file format
    InvalidFormat(String),
    /// An offset or a length points past the end of the input
    TruncatedInput(String),
    /// Other error
    OtherError(String),
    /// Error from io::Error
    Io(std::io::Error),
}

pub type Result<T> = std::result::Result<T, Error>;

/// The two ways in which the bytes of an image can be wrong.
#[derive(Clone, Copy, Debug, PartialEq, Eq, Structural)]
pub enum Fault {
    Format,
    Truncated,
}

impl Error {
    /// Whether this error reports the fault `f`.
    pub open spec fn reports(&self, f: Fault) -> bool {
        match f {
            Fault::Format => self is InvalidFormat,
            Fault::Truncated => self is TruncatedInput,
        }
    }
}

/// Builds the error of kind `f` with the message `msg`.
pub fn fault_error(f: Fault, msg: &str) -> (r: Error)
    ensures
        r.reports(f),
{
    match f {
        Fault::Format => Error::InvalidFormat(msg.to_owned()),
        Fault::Truncated => Error::TruncatedInput(msg.to_owned()),
    }
}

pub fn other_err<S: Into<String>>(msg: S) -> (r: Error)
    ensures
        r matches Error::OtherError(m) && (<S as vstd::std_specs::convert::IntoSpec<
            String,
        >>::obeys_into_spec() ==> m == <S as vstd::std_specs::convert::IntoSpec<String>>::into_spec(msg)),
{
    Error::OtherError(msg.into())
}

impl From<std::io::Error> for Error {
    fn from(e: std::io::Error) -> (r: Error)
        ensures
            r == Error::Io(e),
    {
        Error::Io(e)
    }
}

impl vstd::std_specs::convert::FromSpecImpl<std::io::Error> for Error {
    open spec fn obeys_from_spec() -> bool {
        true
    }

    open spec fn from_spec(e: std::io::Error) -> Error {
        Error::Io(e)
    }
}

} // verus!
