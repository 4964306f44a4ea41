//! Failure causes of a verification run and their exit codes.

use ckb_std::error::SysError;
use vstd::prelude::*;
use vstd::std_specs::convert::FromSpecImpl;

verus! {

/// `ckb_std::error::SysError`, the error of a syscall, with its variants as
/// ckb-std declares them: four named causes, five causes of process handling,
/// and `Unknown` with the number the host returned.
#[verifier::external_type_specification]
pub struct ExSysError(SysError);

/// Why a transaction was turned down.
///
/// The first five variants say that the transaction could not be read; the
/// last three name the rule that it breaks.
#[derive(Debug, Clone, Copy, PartialEq, Eq, Structural)]
pub enum ShadowLockError {
    IndexOutOfBound,
    ItemMissing,
    LengthNotEnough,
    Encoding,
    Unknown,
    OwnershipVerificationFailure,
    ForbidTradeVerificationFailure,
    SelfDestructionVerificationFailure,
}

impl ShadowLockError {
    /// The exit code that stands for this error.
    pub open spec fn spec_code(self) -> int {
        match self {
            ShadowLockError::IndexOutOfBound => -1,
            ShadowLockError::ItemMissing => -2,
            ShadowLockError::LengthNotEnough => -3,
            ShadowLockError::Encoding => -4,
            ShadowLockError::Unknown => -100,
            ShadowLockError::OwnershipVerificationFailure => -110,
            ShadowLockError::ForbidTradeVerificationFailure => -111,
            ShadowLockError::SelfDestructionVerificationFailure => -112,
        }
    }

    /// True of the three errors that a rule gives, false of those that say the
    /// transaction could not be read.
    pub open spec fn is_rule_violation(self) -> bool {
        self == ShadowLockError::OwnershipVerificationFailure || self
            == ShadowLockError::ForbidTradeVerificationFailure || self
            == ShadowLockError::SelfDestructionVerificationFailure
    }

    /// The exit code of the script: negative, and different for each error.
    pub fn code(&self) -> (code: i8)
        ensures
            code == self.spec_code(),
            code < 0,
    {
        match self {
            ShadowLockError::IndexOutOfBound => -1,
            ShadowLockError::ItemMissing => -2,
            ShadowLockError::LengthNotEnough => -3,
            ShadowLockError::Encoding => -4,
            ShadowLockError::Unknown => -100,
            ShadowLockError::OwnershipVerificationFailure => -110,
            ShadowLockError::ForbidTradeVerificationFailure => -111,
            ShadowLockError::SelfDestructionVerificationFailure => -112,
        }
    }

}

/// No two errors share an exit code.
pub proof fn lemma_code_injective(a: ShadowLockError, b: ShadowLockError)
    requires
        a.spec_code() == b.spec_code(),
    ensures
        a == b,
{
}

/// The cause that a failed syscall gives: its own where this lock names it,
/// `Unknown` for every other.
pub open spec fn sys_error_cause(err: SysError) -> ShadowLockError {
    match err {
        SysError::IndexOutOfBound => ShadowLockError::IndexOutOfBound,
        SysError::ItemMissing => ShadowLockError::ItemMissing,
        SysError::LengthNotEnough(_) => ShadowLockError::LengthNotEnough,
        SysError::Encoding => ShadowLockError::Encoding,
        _ => ShadowLockError::Unknown,
    }
}

impl From<SysError> for ShadowLockError {
    /// The cause that a failed syscall gives, as `sys_error_cause` says it.
    fn from(err: SysError) -> (res: Self) {
        match err {
            SysError::IndexOutOfBound => ShadowLockError::IndexOutOfBound,
            SysError::ItemMissing => ShadowLockError::ItemMissing,
            SysError::LengthNotEnough(_) => ShadowLockError::LengthNotEnough,
            SysError::Encoding => ShadowLockError::Encoding,
            _ => ShadowLockError::Unknown,
        }
    }
}

impl FromSpecImpl<SysError> for ShadowLockError {
    open spec fn obeys_from_spec() -> bool {
        true
    }

    open spec fn from_spec(err: SysError) -> Self {
        sys_error_cause(err)
    }
}

/// A failed syscall never counts as the breach of a rule.
pub proof fn lemma_sys_error_is_no_rule_violation(err: SysError)
    ensures
        !sys_error_cause(err).is_rule_violation(),
{
}

} // verus!
