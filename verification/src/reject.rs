//! The codes with which a contract rejects, for the errors of this library
//! and of the host.
use vstd::prelude::*;
use vstd::std_specs::convert::FromSpecImpl;
use crate::codec::ParseError;

verus! {

/// The rejection of a call, with a code that is never zero.
#[derive(Debug, Clone, Copy, PartialEq, Eq, Structural)]
pub struct Reject {
    pub error_code: i32,
}

/// Why an event could not be logged.
#[derive(Debug, Clone, Copy, PartialEq, Eq, Structural)]
pub enum LogError {
    /// The log is full.
    Full,
    /// The event is malformed.
    Malformed,
}

/// Why a name is not the name of a contract.
#[derive(Debug, Clone, Copy, PartialEq, Eq, Structural)]
pub enum NewContractNameError {
    MissingInitPrefix,
    TooLong,
    ContainsDot,
    InvalidCharacters,
}

/// Why a name is not the name of a receive function.
#[derive(Debug, Clone, Copy, PartialEq, Eq, Structural)]
pub enum NewReceiveNameError {
    MissingDotSeparator,
    TooLong,
    InvalidCharacters,
}

/// An amount was sent to a function that takes none.
#[derive(Debug, Clone, Copy, PartialEq, Eq, Structural)]
pub struct NotPayableError {}

/// The code that stands `n` above the smallest one.
pub open spec fn code(n: int) -> Reject {
    Reject { error_code: (i32::MIN + n) as i32 }
}

impl From<()> for Reject {
    fn from(unit: ()) -> (r: Reject) {
        Reject { error_code: i32::MIN + 1 }
    }
}

impl FromSpecImpl<()> for Reject {
    open spec fn obeys_from_spec() -> bool {
        true
    }

    open spec fn from_spec(unit: ()) -> Reject {
        code(1)
    }
}

impl From<ParseError> for Reject {
    fn from(e: ParseError) -> (r: Reject) {
        Reject { error_code: i32::MIN + 2 }
    }
}

impl FromSpecImpl<ParseError> for Reject {
    open spec fn obeys_from_spec() -> bool {
        true
    }

    open spec fn from_spec(e: ParseError) -> Reject {
        code(2)
    }
}

impl From<LogError> for Reject {
    fn from(le: LogError) -> (r: Reject) {
        match le {
            LogError::Full => Reject { error_code: i32::MIN + 3 },
            LogError::Malformed => Reject { error_code: i32::MIN + 4 },
        }
    }
}

impl FromSpecImpl<LogError> for Reject {
    open spec fn obeys_from_spec() -> bool {
        true
    }

    open spec fn from_spec(le: LogError) -> Reject {
        match le {
            LogError::Full => code(3),
            LogError::Malformed => code(4),
        }
    }
}

impl From<NewContractNameError> for Reject {
    fn from(nre: NewContractNameError) -> (r: Reject) {
        match nre {
            NewContractNameError::MissingInitPrefix => Reject { error_code: i32::MIN + 5 },
            NewContractNameError::TooLong => Reject { error_code: i32::MIN + 6 },
            NewContractNameError::ContainsDot => Reject { error_code: i32::MIN + 9 },
            NewContractNameError::InvalidCharacters => Reject { error_code: i32::MIN + 10 },
        }
    }
}

impl FromSpecImpl<NewContractNameError> for Reject {
    open spec fn obeys_from_spec() -> bool {
        true
    }

    open spec fn from_spec(nre: NewContractNameError) -> Reject {
        match nre {
            NewContractNameError::MissingInitPrefix => code(5),
            NewContractNameError::TooLong => code(6),
            NewContractNameError::ContainsDot => code(9),
            NewContractNameError::InvalidCharacters => code(10),
        }
    }
}

impl From<NewReceiveNameError> for Reject {
    fn from(nre: NewReceiveNameError) -> (r: Reject) {
        match nre {
            NewReceiveNameError::MissingDotSeparator => Reject { error_code: i32::MIN + 7 },
            NewReceiveNameError::TooLong => Reject { error_code: i32::MIN + 8 },
            NewReceiveNameError::InvalidCharacters => Reject { error_code: i32::MIN + 11 },
        }
    }
}

impl FromSpecImpl<NewReceiveNameError> for Reject {
    open spec fn obeys_from_spec() -> bool {
        true
    }

    open spec fn from_spec(nre: NewReceiveNameError) -> Reject {
        match nre {
            NewReceiveNameError::MissingDotSeparator => code(7),
            NewReceiveNameError::TooLong => code(8),
            NewReceiveNameError::InvalidCharacters => code(11),
        }
    }
}

impl From<NotPayableError> for Reject {
    fn from(e: NotPayableError) -> (r: Reject) {
        Reject { error_code: i32::MIN + 12 }
    }
}

impl FromSpecImpl<NotPayableError> for Reject {
    open spec fn obeys_from_spec() -> bool {
        true
    }

    open spec fn from_spec(e: NotPayableError) -> Reject {
        code(12)
    }
}

/// What the host's answer to the logging of an event says: 1 that it was
/// logged, 0 that the log is full, anything else that the event is
/// malformed.
pub fn log_result(res: i32) -> (r: Result<(), LogError>)
    ensures
        r == if res == 1 {
            Ok::<(), LogError>(())
        } else if res == 0 {
            Err::<(), LogError>(LogError::Full)
        } else {
            Err::<(), LogError>(LogError::Malformed)
        },
{
    if res == 1 {
        Ok(())
    } else if res == 0 {
        Err(LogError::Full)
    } else {
        Err(LogError::Malformed)
    }
}

} // verus!
