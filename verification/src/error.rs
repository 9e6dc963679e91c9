//! Errors of the swap program.
use vstd::prelude::*;

use solana_program::program_error::ProgramError;

verus! {

/// Errors that the program reports on its own account.
#[derive(Clone, Copy, Debug, PartialEq, Eq, Structural)]
pub enum OneSolError {
    Unknown,
    InvalidInstruction,
    InvalidProgramAddress,
    ExpectedAccount,
    IncorrectTokenProgramId,
    ConversionFailure,
    ZeroTradingTokens,
}

impl OneSolError {
    /// The number under which the runtime reports this error.
    pub open spec fn spec_code(self) -> u32 {
        match self {
            OneSolError::Unknown => 0,
            OneSolError::InvalidInstruction => 1,
            OneSolError::InvalidProgramAddress => 2,
            OneSolError::ExpectedAccount => 3,
            OneSolError::IncorrectTokenProgramId => 4,
            OneSolError::ConversionFailure => 5,
            OneSolError::ZeroTradingTokens => 6,
        }
    }

    /// The number under which the runtime reports this error.
    pub fn code(&self) -> (c: u32)
        ensures
            c == self.spec_code(),
    {
        match self {
            OneSolError::Unknown => 0,
            OneSolError::InvalidInstruction => 1,
            OneSolError::InvalidProgramAddress => 2,
            OneSolError::ExpectedAccount => 3,
            OneSolError::IncorrectTokenProgramId => 4,
            OneSolError::ConversionFailure => 5,
            OneSolError::ZeroTradingTokens => 6,
        }
    }

    /// The message the program logs for this error.
    pub fn message(&self) -> (m: &'static str)
        ensures
            *self == OneSolError::Unknown ==> m@ == "Error: Unknown"@,
            *self == OneSolError::InvalidInstruction ==> m@ == "Error: InvalidInstruction"@,
            *self == OneSolError::InvalidProgramAddress ==> m@ == "Error: InvildProgramAddress"@,
            *self == OneSolError::ExpectedAccount ==> m@ == "Error: ExpectedAccount"@,
            *self == OneSolError::IncorrectTokenProgramId ==> m@
                == "Error: IncorrectTokenProgramId"@,
            *self == OneSolError::ConversionFailure ==> m@ == "Error: ConversionFailure"@,
            *self == OneSolError::ZeroTradingTokens ==> m@ == "Error: ZeroTradingTokens"@,
    {
        match self {
            OneSolError::Unknown => "Error: Unknown",
            OneSolError::InvalidInstruction => "Error: InvalidInstruction",
            OneSolError::InvalidProgramAddress => "Error: InvildProgramAddress",
            OneSolError::ExpectedAccount => "Error: ExpectedAccount",
            OneSolError::IncorrectTokenProgramId => "Error: IncorrectTokenProgramId",
            OneSolError::ConversionFailure => "Error: ConversionFailure",
            OneSolError::ZeroTradingTokens => "Error: ZeroTradingTokens",
        }
    }
}

/// An error of the runtime or of another program. The variants that the
/// program itself tells apart are named; any other error is carried through.
#[derive(Debug)]
pub enum RuntimeError {
    InvalidAccountData,
    UninitializedAccount,
    IncorrectProgramId,
    Other(ProgramError),
}

} // verus!
