//! The failures that the library reports.

use vstd::prelude::*;

verus! {

/// Why an operation was refused.
#[derive(Clone, Copy, Debug, PartialEq, Eq, Structural)]
pub enum WayfinderError {
    InvalidInstruction,
    IncorrectProgramId,
    AccountNotWritable,
    AccountNotSigner,
    InvalidPoolAccount,
    NoValidPath,
    InsufficientLiquidity,
    SlippageExceeded,
    InvalidRoute,
    MaximumHopsExceeded,
    InvalidPoolState,
    CalculationOverflow,
}

impl WayfinderError {
    /// The number of the error: its position in the declaration, from zero.
    pub open spec fn spec_code(self) -> u32 {
        match self {
            WayfinderError::InvalidInstruction => 0,
            WayfinderError::IncorrectProgramId => 1,
            WayfinderError::AccountNotWritable => 2,
            WayfinderError::AccountNotSigner => 3,
            WayfinderError::InvalidPoolAccount => 4,
            WayfinderError::NoValidPath => 5,
            WayfinderError::InsufficientLiquidity => 6,
            WayfinderError::SlippageExceeded => 7,
            WayfinderError::InvalidRoute => 8,
            WayfinderError::MaximumHopsExceeded => 9,
            WayfinderError::InvalidPoolState => 10,
            WayfinderError::CalculationOverflow => 11,
        }
    }

    /// The text that describes the error.
    pub open spec fn spec_message(self) -> Seq<char> {
        match self {
            WayfinderError::InvalidInstruction => "Invalid Instruction"@,
            WayfinderError::IncorrectProgramId => "Incorrect Program ID"@,
            WayfinderError::AccountNotWritable => "Account Not Writable"@,
            WayfinderError::AccountNotSigner => "Account Not Signer"@,
            WayfinderError::InvalidPoolAccount => "Invalid Pool Account"@,
            WayfinderError::NoValidPath => "No Valid Path Found"@,
            WayfinderError::InsufficientLiquidity => "Insufficient Liquidity"@,
            WayfinderError::SlippageExceeded => "Slippage Exceeded"@,
            WayfinderError::InvalidRoute => "Invalid Route"@,
            WayfinderError::MaximumHopsExceeded => "Maximum Hops Exceeded"@,
            WayfinderError::InvalidPoolState => "Invalid Pool State"@,
            WayfinderError::CalculationOverflow => "Calculation Overflow"@,
        }
    }

    /// The number under which the error travels as a custom program error.
    pub fn code(self) -> (code: u32)
        ensures
            code == self.spec_code(),
    {
        match self {
            WayfinderError::InvalidInstruction => 0,
            WayfinderError::IncorrectProgramId => 1,
            WayfinderError::AccountNotWritable => 2,
            WayfinderError::AccountNotSigner => 3,
            WayfinderError::InvalidPoolAccount => 4,
            WayfinderError::NoValidPath => 5,
            WayfinderError::InsufficientLiquidity => 6,
            WayfinderError::SlippageExceeded => 7,
            WayfinderError::InvalidRoute => 8,
            WayfinderError::MaximumHopsExceeded => 9,
            WayfinderError::InvalidPoolState => 10,
            WayfinderError::CalculationOverflow => 11,
        }
    }

    /// The error that travels under the given number, if there is one.
    pub fn from_code(code: u32) -> (error: Option<WayfinderError>)
        ensures
            match error {
                Some(e) => e.spec_code() == code,
                None => code > 11,
            },
    {
        match code {
            0 => Some(WayfinderError::InvalidInstruction),
            1 => Some(WayfinderError::IncorrectProgramId),
            2 => Some(WayfinderError::AccountNotWritable),
            3 => Some(WayfinderError::AccountNotSigner),
            4 => Some(WayfinderError::InvalidPoolAccount),
            5 => Some(WayfinderError::NoValidPath),
            6 => Some(WayfinderError::InsufficientLiquidity),
            7 => Some(WayfinderError::SlippageExceeded),
            8 => Some(WayfinderError::InvalidRoute),
            9 => Some(WayfinderError::MaximumHopsExceeded),
            10 => Some(WayfinderError::InvalidPoolState),
            11 => Some(WayfinderError::CalculationOverflow),
            _ => None,
        }
    }

    /// Errors are told apart by their numbers, and no number exceeds eleven.
    pub proof fn lemma_codes_distinct(a: WayfinderError, b: WayfinderError)
        ensures
            a.spec_code() <= 11,
            a.spec_code() == b.spec_code() ==> a == b,
    {
    }

    /// The text that describes the error.
    pub fn message(self) -> (text: String)
        ensures
            text@ == self.spec_message(),
    {
        match self {
            WayfinderError::InvalidInstruction => "Invalid Instruction".to_owned(),
            WayfinderError::IncorrectProgramId => "Incorrect Program ID".to_owned(),
            WayfinderError::AccountNotWritable => "Account Not Writable".to_owned(),
            WayfinderError::AccountNotSigner => "Account Not Signer".to_owned(),
            WayfinderError::InvalidPoolAccount => "Invalid Pool Account".to_owned(),
            WayfinderError::NoValidPath => "No Valid Path Found".to_owned(),
            WayfinderError::InsufficientLiquidity => "Insufficient Liquidity".to_owned(),
            WayfinderError::SlippageExceeded => "Slippage Exceeded".to_owned(),
            WayfinderError::InvalidRoute => "Invalid Route".to_owned(),
            WayfinderError::MaximumHopsExceeded => "Maximum Hops Exceeded".to_owned(),
            WayfinderError::InvalidPoolState => "Invalid Pool State".to_owned(),
            WayfinderError::CalculationOverflow => "Calculation Overflow".to_owned(),
        }
    }
}

} // verus!
