//! The response codes of transfers and of calls to other contracts.
//!
//! A code is one number of 64 bits. From the most significant end: three
//! bytes for the index of the return value, one byte for the kind of a
//! failure, four bytes for the reason of a rejection. Success has the five
//! lower bytes zero.
use vstd::prelude::*;

verus! {

/// Why a transfer failed.
#[derive(Debug, Clone, Copy, PartialEq, Eq, Structural)]
pub enum TransferError {
    /// The amount is more than the sender has.
    AmountTooLarge,
    /// The receiving account does not exist.
    MissingAccount,
}

/// The result of a transfer.
pub type TransferResult = Result<(), TransferError>;

/// The return value of a call, to be read from its start.
#[derive(Debug, Clone, Copy, PartialEq, Eq, Structural)]
pub struct CallResponse {
    /// The index of the return value, which is never zero.
    pub i: u32,
    /// The place of the next byte to read.
    pub current_position: u32,
}

/// Why a call to a contract failed.
#[derive(Debug, Clone, Copy, PartialEq, Eq, Structural)]
pub enum CallContractError {
    /// The amount is more than the sender has.
    AmountTooLarge,
    /// The account to pay does not exist.
    MissingAccount,
    /// The contract does not exist.
    MissingContract,
    /// The contract has no such entrypoint.
    MissingEntrypoint,
    /// The message to an old contract failed.
    MessageFailed,
    /// The contract rejected the call, with a reason and a return value.
    LogicReject { reason: i32, return_value: CallResponse },
    /// The call ended in a trap.
    Trap,
}

/// The result of a call: whether the state of the caller was changed, and
/// the return value, if there is one.
pub type CallContractResult = Result<(bool, Option<CallResponse>), CallContractError>;

/// The five lower bytes of `code`, which are zero on success.
pub open spec fn low_bytes(code: u64) -> int {
    code as int % 0x100_0000_0000
}

/// The three upper bytes of `code`: the index of the return value, with
/// the mark of a changed state above it.
pub open spec fn upper_bytes(code: u64) -> int {
    code as int / 0x100_0000_0000
}

/// The byte of `code` that says how the operation failed.
pub open spec fn failure_kind(code: u64) -> int {
    (code as int / 0x1_0000_0000) % 0x100
}

/// The four lowest bytes of `code` read as a signed number: the reason of
/// a rejection.
pub open spec fn reject_reason(code: u64) -> int {
    let r = code as int % 0x1_0000_0000;
    if r >= 0x8000_0000 {
        r - 0x1_0000_0000
    } else {
        r
    }
}

/// `code` is one that a transfer can answer with.
pub open spec fn transfer_response_valid(code: u64) -> bool {
    low_bytes(code) == 0 || failure_kind(code) == 1 || failure_kind(code) == 2
}

/// What the response `code` of a transfer says.
pub open spec fn transfer_response(code: u64) -> TransferResult {
    if low_bytes(code) == 0 {
        Ok(())
    } else if failure_kind(code) == 1 {
        Err(TransferError::AmountTooLarge)
    } else {
        Err(TransferError::MissingAccount)
    }
}

/// `code` is one that a call can answer with: success, a rejection with a
/// reason that is not zero and a return value, or one of six failures.
pub open spec fn call_response_valid(code: u64) -> bool {
    low_bytes(code) == 0 || (failure_kind(code) == 0 && reject_reason(code) != 0 && upper_bytes(code)
        > 0) || 1 <= failure_kind(code) <= 6
}

/// The return value with index `i`, or none where `i` is zero.
pub open spec fn response_at(i: int) -> Option<CallResponse> {
    if i == 0 {
        None
    } else {
        Some(CallResponse { i: i as u32, current_position: 0 })
    }
}

/// What the response `code` of a call says.
pub open spec fn call_response(code: u64) -> CallContractResult {
    if low_bytes(code) == 0 {
        if upper_bytes(code) >= 0x80_0000 {
            Ok((true, response_at(upper_bytes(code) - 0x80_0000)))
        } else {
            Ok((false, response_at(upper_bytes(code))))
        }
    } else if failure_kind(code) == 0 {
        Err(
            CallContractError::LogicReject {
                reason: reject_reason(code) as i32,
                return_value: CallResponse { i: upper_bytes(code) as u32, current_position: 0 },
            },
        )
    } else if failure_kind(code) == 1 {
        Err(CallContractError::AmountTooLarge)
    } else if failure_kind(code) == 2 {
        Err(CallContractError::MissingAccount)
    } else if failure_kind(code) == 3 {
        Err(CallContractError::MissingContract)
    } else if failure_kind(code) == 4 {
        Err(CallContractError::MissingEntrypoint)
    } else if failure_kind(code) == 5 {
        Err(CallContractError::MessageFailed)
    } else {
        Err(CallContractError::Trap)
    }
}

impl CallResponse {
    /// The return value with index `i`, at its start.
    pub fn new(i: u32) -> (r: CallResponse)
        requires
            i != 0,
        ensures
            r == (CallResponse { i, current_position: 0 }),
    {
        CallResponse { i, current_position: 0 }
    }
}

/// The parts of a response code.
struct CodeParts {
    low: u64,
    kind: u64,
    reason: u32,
    upper: u32,
}

/// Takes `code` apart.
fn code_parts(code: u64) -> (p: CodeParts)
    ensures
        p.low == low_bytes(code),
        p.kind == failure_kind(code),
        p.upper == upper_bytes(code),
        p.reason == code as int % 0x1_0000_0000,
        p.upper < 0x100_0000,
{
    let low = code & !0xffff_ff00_0000_0000u64;
    let kind = (0x0000_00ff_0000_0000u64 & code) >> 32;
    let reason = (0x0000_0000_ffff_ffffu64 & code) as u32;
    let upper = (code >> 40) as u32;
    assert(code & !0xffff_ff00_0000_0000u64 == code % 0x100_0000_0000) by (bit_vector);
    assert((0x0000_00ff_0000_0000u64 & code) >> 32 == (code / 0x1_0000_0000) % 0x100)
        by (bit_vector);
    assert(0x0000_0000_ffff_ffffu64 & code == code % 0x1_0000_0000) by (bit_vector);
    assert(code >> 40 == code / 0x100_0000_0000) by (bit_vector);
    assert(code >> 40 < 0x100_0000) by (bit_vector);
    CodeParts { low, kind, reason, upper }
}

/// Whether `code` is one that a transfer can answer with.
pub fn is_transfer_response(code: u64) -> (r: bool)
    ensures
        r == transfer_response_valid(code),
{
    let p = code_parts(code);
    p.low == 0 || p.kind == 1 || p.kind == 2
}

/// Reads the response code of a transfer.
pub fn parse_transfer_response_code(code: u64) -> (r: TransferResult)
    requires
        transfer_response_valid(code),
    ensures
        r == transfer_response(code),
{
    let p = code_parts(code);
    if p.low == 0 {
        Ok(())
    } else if p.kind == 1 {
        Err(TransferError::AmountTooLarge)
    } else {
        Err(TransferError::MissingAccount)
    }
}

/// Whether `code` is one that a call can answer with.
pub fn is_call_response(code: u64) -> (r: bool)
    ensures
        r == call_response_valid(code),
{
    let p = code_parts(code);
    p.low == 0 || (p.kind == 0 && p.reason != 0 && p.upper > 0) || (1 <= p.kind && p.kind <= 6)
}

/// Reads the response code of a call to a contract.
pub fn parse_call_response_code(code: u64) -> (r: CallContractResult)
    requires
        call_response_valid(code),
    ensures
        r == call_response(code),
{
    let p = code_parts(code);
    if p.low == 0 {
        let rv = p.upper;
        let tag = 0x80_0000u32;
        if rv >= tag {
            let i = rv - tag;
            Ok((true, if i == 0 { None } else { Some(CallResponse::new(i)) }))
        } else {
            Ok((false, if rv == 0 { None } else { Some(CallResponse::new(rv)) }))
        }
    } else if p.kind == 0 {
        let reason: i32 = if p.reason >= 0x8000_0000 {
            (p.reason - 0x8000_0000) as i32 + i32::MIN
        } else {
            p.reason as i32
        };
        Err(CallContractError::LogicReject { reason, return_value: CallResponse::new(p.upper) })
    } else if p.kind == 1 {
        Err(CallContractError::AmountTooLarge)
    } else if p.kind == 2 {
        Err(CallContractError::MissingAccount)
    } else if p.kind == 3 {
        Err(CallContractError::MissingContract)
    } else if p.kind == 4 {
        Err(CallContractError::MissingEntrypoint)
    } else if p.kind == 5 {
        Err(CallContractError::MessageFailed)
    } else {
        Err(CallContractError::Trap)
    }
}

} // verus!
