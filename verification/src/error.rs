//! Error kinds shared by every bridge entry point. The numeric values are a
//! frozen contract with the C-style shell around this library: zero for
//! success, negative values for errors.

use vstd::prelude::*;

verus! {

/// The bridge's error kinds.
#[derive(Debug, Clone, Copy, PartialEq, Eq, Structural)]
pub enum ErrorCode {
    Success,
    AlreadyInitialized,
    NotInitialized,
    NftablesFailed,
    NetlinkFailed,
    InvalidParam,
    IoError,
    PermissionDenied,
    DbOpen,
    DbQuery,
    DbWrite,
    GroupNotFound,
    RuleNotFound,
    InvalidState,
    AlreadyStarted,
    NotStarted,
    PresetFailed,
    VerifyFailed,
}

/// The numeric value each kind stands for at the boundary.
pub open spec fn spec_code(e: ErrorCode) -> int {
    match e {
        ErrorCode::Success => 0,
        ErrorCode::AlreadyInitialized => -1,
        ErrorCode::NotInitialized => -2,
        ErrorCode::NftablesFailed => -3,
        ErrorCode::NetlinkFailed => -4,
        ErrorCode::InvalidParam => -5,
        ErrorCode::IoError => -6,
        ErrorCode::PermissionDenied => -7,
        ErrorCode::DbOpen => -10,
        ErrorCode::DbQuery => -11,
        ErrorCode::DbWrite => -12,
        ErrorCode::GroupNotFound => -13,
        ErrorCode::RuleNotFound => -14,
        ErrorCode::InvalidState => -15,
        ErrorCode::AlreadyStarted => -16,
        ErrorCode::NotStarted => -17,
        ErrorCode::PresetFailed => -18,
        ErrorCode::VerifyFailed => -19,
    }
}

impl ErrorCode {
    /// The numeric boundary value: 0 for success, negative for errors.
    pub fn code(&self) -> (r: i32)
        ensures
            r as int == spec_code(*self),
            *self is Success <==> r == 0,
            !(*self is Success) ==> r < 0,
    {
        match self {
            ErrorCode::Success => 0,
            ErrorCode::AlreadyInitialized => -1,
            ErrorCode::NotInitialized => -2,
            ErrorCode::NftablesFailed => -3,
            ErrorCode::NetlinkFailed => -4,
            ErrorCode::InvalidParam => -5,
            ErrorCode::IoError => -6,
            ErrorCode::PermissionDenied => -7,
            ErrorCode::DbOpen => -10,
            ErrorCode::DbQuery => -11,
            ErrorCode::DbWrite => -12,
            ErrorCode::GroupNotFound => -13,
            ErrorCode::RuleNotFound => -14,
            ErrorCode::InvalidState => -15,
            ErrorCode::AlreadyStarted => -16,
            ErrorCode::NotStarted => -17,
            ErrorCode::PresetFailed => -18,
            ErrorCode::VerifyFailed => -19,
        }
    }

    /// A short description of the kind.
    pub fn message(&self) -> (r: String)
        ensures
            *self is Success ==> r@ == "OK"@,
            *self is AlreadyInitialized ==> r@ == "Already initialized"@,
            *self is NotInitialized ==> r@ == "Not initialized"@,
            *self is NftablesFailed ==> r@ == "nftables operation failed"@,
            *self is NetlinkFailed ==> r@ == "Netlink operation failed"@,
            *self is InvalidParam ==> r@ == "Invalid parameter"@,
            *self is IoError ==> r@ == "I/O error"@,
            *self is PermissionDenied ==> r@ == "Permission denied (need CAP_NET_ADMIN)"@,
            *self is DbOpen ==> r@ == "Database open failed"@,
            *self is DbQuery ==> r@ == "Database query failed"@,
            *self is DbWrite ==> r@ == "Database write failed"@,
            *self is GroupNotFound ==> r@ == "Rule group not found"@,
            *self is RuleNotFound ==> r@ == "Rule not found"@,
            *self is InvalidState ==> r@ == "Invalid state for this operation"@,
            *self is AlreadyStarted ==> r@ == "Already started"@,
            *self is NotStarted ==> r@ == "Not started"@,
            *self is PresetFailed ==> r@ == "Preset application failed"@,
            *self is VerifyFailed ==> r@ == "Verification failed"@,
    {
        match self {
            ErrorCode::Success => String::from_str("OK"),
            ErrorCode::AlreadyInitialized => String::from_str("Already initialized"),
            ErrorCode::NotInitialized => String::from_str("Not initialized"),
            ErrorCode::NftablesFailed => String::from_str("nftables operation failed"),
            ErrorCode::NetlinkFailed => String::from_str("Netlink operation failed"),
            ErrorCode::InvalidParam => String::from_str("Invalid parameter"),
            ErrorCode::IoError => String::from_str("I/O error"),
            ErrorCode::PermissionDenied => String::from_str(
                "Permission denied (need CAP_NET_ADMIN)",
            ),
            ErrorCode::DbOpen => String::from_str("Database open failed"),
            ErrorCode::DbQuery => String::from_str("Database query failed"),
            ErrorCode::DbWrite => String::from_str("Database write failed"),
            ErrorCode::GroupNotFound => String::from_str("Rule group not found"),
            ErrorCode::RuleNotFound => String::from_str("Rule not found"),
            ErrorCode::InvalidState => String::from_str("Invalid state for this operation"),
            ErrorCode::AlreadyStarted => String::from_str("Already started"),
            ErrorCode::NotStarted => String::from_str("Not started"),
            ErrorCode::PresetFailed => String::from_str("Preset application failed"),
            ErrorCode::VerifyFailed => String::from_str("Verification failed"),
        }
    }
}

} // verus!
