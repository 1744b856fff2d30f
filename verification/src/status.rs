//! The shared status and type model: the closed FMI2 status enumeration with
//! its severity order, the status-kind enumeration used when polling an
//! asynchronous step, and the FMU-type enumeration. Each is convertible
//! to and from the small integer that travels over the wire and across the
//! C ABI; conversion from an out-of-range integer fails with a
//! `ConversionError`.

use vstd::prelude::*;

verus! {

/// The outcome of a request to a slave, ordered by severity.
///
/// The severity order is the order of the integer codes:
/// `Fmi2OK < Fmi2Warning < Fmi2Discard < Fmi2Error < Fmi2Fatal < Fmi2Pending`.
#[derive(Clone, Copy, Debug, PartialEq, Eq, Structural)]
pub enum Fmi2Status {
    Fmi2OK,
    Fmi2Warning,
    Fmi2Discard,
    Fmi2Error,
    Fmi2Fatal,
    Fmi2Pending,
}

/// The kind argument of the status-polling operations.
#[derive(Clone, Copy, Debug, PartialEq, Eq, Structural)]
pub enum Fmi2StatusKind {
    Fmi2DoStepStatus,
    Fmi2PendingStatus,
    Fmi2LastSuccessfulTime,
    Fmi2Terminated,
}

/// The two kinds of FMU an environment may ask for.
#[derive(Clone, Copy, Debug, PartialEq, Eq, Structural)]
pub enum Fmi2Type {
    Fmi2ModelExchange,
    Fmi2CoSimulation,
}

/// The integer that could not be converted into a closed enumeration.
#[derive(Clone, Copy, Debug, PartialEq, Eq, Structural)]
pub struct ConversionError {
    pub value: i32,
}

impl Fmi2Status {
    /// The status code: both the wire representation and the severity rank.
    pub open spec fn code(self) -> int {
        match self {
            Fmi2Status::Fmi2OK => 0,
            Fmi2Status::Fmi2Warning => 1,
            Fmi2Status::Fmi2Discard => 2,
            Fmi2Status::Fmi2Error => 3,
            Fmi2Status::Fmi2Fatal => 4,
            Fmi2Status::Fmi2Pending => 5,
        }
    }

    /// The status of a given code, if the code is in range.
    pub open spec fn spec_from_code(code: int) -> Option<Fmi2Status> {
        if code == 0 {
            Some(Fmi2Status::Fmi2OK)
        } else if code == 1 {
            Some(Fmi2Status::Fmi2Warning)
        } else if code == 2 {
            Some(Fmi2Status::Fmi2Discard)
        } else if code == 3 {
            Some(Fmi2Status::Fmi2Error)
        } else if code == 4 {
            Some(Fmi2Status::Fmi2Fatal)
        } else if code == 5 {
            Some(Fmi2Status::Fmi2Pending)
        } else {
            None
        }
    }

    /// A get-operation may hand its values to the caller only below this
    /// severity bound: strictly more severe than `Fmi2Warning` means the
    /// values are absent and output buffers must be left untouched.
    pub open spec fn spec_at_most_warning(self) -> bool {
        self.code() <= Fmi2Status::Fmi2Warning.code()
    }

    /// The integer code of this status.
    pub fn to_code(self) -> (r: i32)
        ensures
            r == self.code(),
    {
        match self {
            Fmi2Status::Fmi2OK => 0,
            Fmi2Status::Fmi2Warning => 1,
            Fmi2Status::Fmi2Discard => 2,
            Fmi2Status::Fmi2Error => 3,
            Fmi2Status::Fmi2Fatal => 4,
            Fmi2Status::Fmi2Pending => 5,
        }
    }

    /// Converts an integer code back into a status; an out-of-range code
    /// is a `ConversionError` carrying the offending integer.
    pub fn try_from_code(value: i32) -> (r: Result<Fmi2Status, ConversionError>)
        ensures
            match r {
                Ok(s) => Self::spec_from_code(value as int) == Some(s),
                Err(e) => Self::spec_from_code(value as int) is None && e.value == value,
            },
    {
        match value {
            0 => Ok(Fmi2Status::Fmi2OK),
            1 => Ok(Fmi2Status::Fmi2Warning),
            2 => Ok(Fmi2Status::Fmi2Discard),
            3 => Ok(Fmi2Status::Fmi2Error),
            4 => Ok(Fmi2Status::Fmi2Fatal),
            5 => Ok(Fmi2Status::Fmi2Pending),
            _ => Err(ConversionError { value }),
        }
    }

    /// Whether this status is no more severe than `Fmi2Warning`, i.e.
    /// whether the values of a get-operation are present and may be
    /// written back to the caller.
    pub fn is_at_most_warning(self) -> (r: bool)
        ensures
            r == self.spec_at_most_warning(),
    {
        match self {
            Fmi2Status::Fmi2OK => true,
            Fmi2Status::Fmi2Warning => true,
            _ => false,
        }
    }
}

/// Round trip: every status survives conversion to its code and back.
pub proof fn lemma_status_code_round_trip(s: Fmi2Status)
    ensures
        Fmi2Status::spec_from_code(s.code()) == Some(s),
{
}

/// The code is injective: distinct statuses have distinct codes.
pub proof fn lemma_status_code_injective(a: Fmi2Status, b: Fmi2Status)
    requires
        a.code() == b.code(),
    ensures
        a == b,
{
}

impl Fmi2StatusKind {
    /// The wire code of this status kind.
    pub open spec fn code(self) -> int {
        match self {
            Fmi2StatusKind::Fmi2DoStepStatus => 0,
            Fmi2StatusKind::Fmi2PendingStatus => 1,
            Fmi2StatusKind::Fmi2LastSuccessfulTime => 2,
            Fmi2StatusKind::Fmi2Terminated => 3,
        }
    }

    /// The status kind of a given code, if the code is in range.
    pub open spec fn spec_from_code(code: int) -> Option<Fmi2StatusKind> {
        if code == 0 {
            Some(Fmi2StatusKind::Fmi2DoStepStatus)
        } else if code == 1 {
            Some(Fmi2StatusKind::Fmi2PendingStatus)
        } else if code == 2 {
            Some(Fmi2StatusKind::Fmi2LastSuccessfulTime)
        } else if code == 3 {
            Some(Fmi2StatusKind::Fmi2Terminated)
        } else {
            None
        }
    }

    /// The integer code of this status kind.
    pub fn to_code(self) -> (r: i32)
        ensures
            r == self.code(),
    {
        match self {
            Fmi2StatusKind::Fmi2DoStepStatus => 0,
            Fmi2StatusKind::Fmi2PendingStatus => 1,
            Fmi2StatusKind::Fmi2LastSuccessfulTime => 2,
            Fmi2StatusKind::Fmi2Terminated => 3,
        }
    }

    /// Converts an integer code back into a status kind.
    pub fn try_from_code(value: i32) -> (r: Result<Fmi2StatusKind, ConversionError>)
        ensures
            match r {
                Ok(k) => Self::spec_from_code(value as int) == Some(k),
                Err(e) => Self::spec_from_code(value as int) is None && e.value == value,
            },
    {
        match value {
            0 => Ok(Fmi2StatusKind::Fmi2DoStepStatus),
            1 => Ok(Fmi2StatusKind::Fmi2PendingStatus),
            2 => Ok(Fmi2StatusKind::Fmi2LastSuccessfulTime),
            3 => Ok(Fmi2StatusKind::Fmi2Terminated),
            _ => Err(ConversionError { value }),
        }
    }
}

impl Fmi2Type {
    /// The wire code of this FMU type.
    pub open spec fn code(self) -> int {
        match self {
            Fmi2Type::Fmi2ModelExchange => 0,
            Fmi2Type::Fmi2CoSimulation => 1,
        }
    }

    /// The FMU type of a given code, if the code is in range.
    pub open spec fn spec_from_code(code: int) -> Option<Fmi2Type> {
        if code == 0 {
            Some(Fmi2Type::Fmi2ModelExchange)
        } else if code == 1 {
            Some(Fmi2Type::Fmi2CoSimulation)
        } else {
            None
        }
    }

    /// The integer code of this FMU type.
    pub fn to_code(self) -> (r: i32)
        ensures
            r == self.code(),
    {
        match self {
            Fmi2Type::Fmi2ModelExchange => 0,
            Fmi2Type::Fmi2CoSimulation => 1,
        }
    }

    /// Converts an integer code back into an FMU type; an environment that
    /// passes an unknown type code gets a `ConversionError`.
    pub fn try_from_code(value: i32) -> (r: Result<Fmi2Type, ConversionError>)
        ensures
            match r {
                Ok(t) => Self::spec_from_code(value as int) == Some(t),
                Err(e) => Self::spec_from_code(value as int) is None && e.value == value,
            },
    {
        match value {
            0 => Ok(Fmi2Type::Fmi2ModelExchange),
            1 => Ok(Fmi2Type::Fmi2CoSimulation),
            _ => Err(ConversionError { value }),
        }
    }
}

} // verus!
