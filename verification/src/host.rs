//! Cursors over what the host keeps for a call, and the bytes handed to
//! and from the host: the steps around each call of the host.
use vstd::prelude::*;
use vstd::bytes::{
    spec_u16_to_le_bytes, spec_u32_to_le_bytes, spec_u64_from_le_bytes, spec_u64_to_le_bytes,
    u64_from_le_bytes,
};
use crate::codec::{to_bytes, ParseError, ParseResult, Serial};
use crate::response::CallResponse;

verus! {

/// The length of the address of an account.
pub const ACCOUNT_ADDRESS_SIZE: usize = 32;

/// The cursor into the return value of the call that is running.
#[derive(Debug, Clone, Copy, PartialEq, Eq, Structural)]
pub struct ReturnValue {
    pub current_position: u32,
}

/// The cursor into the parameter of the call that is running.
#[derive(Debug, Clone, Copy, PartialEq, Eq, Structural)]
pub struct ExternParameter {
    pub current_position: u32,
}

/// Who sent a message: an account, by its address, or a contract, by its
/// index and subindex.
pub enum Address {
    Account(Vec<u8>),
    Contract { index: u64, subindex: u64 },
}

/// The length of a buffer as the host takes it, or an error where the
/// host cannot take it: a length of more than 32 bits.
pub fn read_len(len: usize) -> (r: ParseResult<u32>)
    ensures
        r == if len <= u32::MAX {
            Ok::<u32, ParseError>(len as u32)
        } else {
            Err::<u32, ParseError>(ParseError {  })
        },
{
    if len <= 0xffff_ffff {
        Ok(len as u32)
    } else {
        Err(ParseError {  })
    }
}

impl ReturnValue {
    /// The cursor at the start of the return value.
    pub fn open() -> (r: ReturnValue)
        ensures
            r.current_position == 0,
    {
        ReturnValue { current_position: 0 }
    }

    /// The length to hand to the host for a write of `len` bytes at the
    /// cursor. It is an error where the length has more than 32 bits or the
    /// write would reach behind the last place that can be addressed.
    pub fn write_len(&self, len: usize) -> (r: Result<u32, ()>)
        ensures
            r == if self.current_position + len <= u32::MAX {
                Ok::<u32, ()>(len as u32)
            } else {
                Err::<u32, ()>(())
            },
    {
        if len <= 0xffff_ffff && self.current_position as u64 + len as u64 <= 0xffff_ffff {
            Ok(len as u32)
        } else {
            Err(())
        }
    }

    /// Moves the cursor past the `num_bytes` bytes that the host wrote,
    /// and returns their number.
    pub fn written(&mut self, num_bytes: u32) -> (n: usize)
        requires
            old(self).current_position + num_bytes <= u32::MAX,
        ensures
            n == num_bytes,
            final(self).current_position == old(self).current_position + num_bytes,
    {
        self.current_position = self.current_position + num_bytes;
        num_bytes as usize
    }
}

impl ExternParameter {
    /// The cursor at the start of the parameter.
    pub fn open() -> (r: ExternParameter)
        ensures
            r.current_position == 0,
    {
        ExternParameter { current_position: 0 }
    }

    /// Moves the cursor past the `num_read` bytes that the host handed
    /// out, and returns their number.
    pub fn has_read(&mut self, num_read: u32) -> (n: usize)
        requires
            old(self).current_position + num_read <= u32::MAX,
        ensures
            n == num_read,
            final(self).current_position == old(self).current_position + num_read,
    {
        self.current_position = self.current_position + num_read;
        num_read as usize
    }
}

impl CallResponse {
    /// Moves the cursor past the `num_read` bytes that the host handed
    /// out, and returns their number. A negative number says that the host
    /// has no such return value: that is an error, and the cursor stays.
    pub fn has_read(&mut self, num_read: i32) -> (r: ParseResult<usize>)
        requires
            old(self).current_position + num_read <= u32::MAX,
        ensures
            final(self).i == old(self).i,
            num_read >= 0 ==> r == Ok::<usize, ParseError>(num_read as usize)
                && final(self).current_position == old(self).current_position + num_read,
            num_read < 0 ==> r is Err && final(self).current_position
                == old(self).current_position,
    {
        if num_read >= 0 {
            self.current_position = self.current_position + num_read as u32;
            Ok(num_read as usize)
        } else {
            Err(ParseError {  })
        }
    }
}

/// `input` behind its length, which is written as four bytes in
/// little-endian order.
pub fn length_prefixed(input: &[u8]) -> (out: Vec<u8>)
    requires
        input@.len() <= u32::MAX,
    ensures
        out@ == spec_u32_to_le_bytes(input@.len() as u32) + input@,
{
    let bytes_length = input.len() as u32;
    let mut bytes = to_bytes(&bytes_length);
    append_bytes(&mut bytes, input);
    bytes
}

/// The parameter of a transfer: the address of the receiving account, and
/// behind it the amount in little-endian order.
pub fn transfer_parameter(receiver: &[u8], amount: u64) -> (out: Vec<u8>)
    requires
        receiver@.len() == ACCOUNT_ADDRESS_SIZE,
    ensures
        out@ == receiver@ + spec_u64_to_le_bytes(amount),
{
    let mut out = vstd::slice::slice_to_vec(receiver);
    let mut amount_bytes = to_bytes(&amount);
    out.append(&mut amount_bytes);
    out
}

/// Appends `bytes` to `out`.
fn append_bytes(out: &mut Vec<u8>, bytes: &[u8])
    ensures
        final(out)@ == old(out)@ + bytes@,
{
    let mut i: usize = 0;
    while i < bytes.len()
        invariant
            i <= bytes@.len(),
            out@ == old(out)@ + bytes@.subrange(0, i as int),
        decreases bytes@.len() - i,
    {
        out.push(bytes[i]);
        assert(out@ =~= old(out)@ + bytes@.subrange(0, i + 1));
        i += 1;
    }
    assert(bytes@.subrange(0, i as int) =~= bytes@);
}

/// The bytes that name a call to a contract.
pub open spec fn call_parameter(
    index: u64,
    subindex: u64,
    parameter: Seq<u8>,
    method: Seq<u8>,
    amount: u64,
) -> Seq<u8> {
    spec_u64_to_le_bytes(index) + spec_u64_to_le_bytes(subindex) + spec_u16_to_le_bytes(
        parameter.len() as u16,
    ) + parameter + spec_u16_to_le_bytes(method.len() as u16) + method + spec_u64_to_le_bytes(
        amount,
    )
}

/// The bytes that name a call to the host: the index and the subindex of
/// the contract, the parameter behind its length, the name of the
/// entrypoint behind its length, and the amount. Numbers are in
/// little-endian order, and a length takes two bytes.
pub fn invoke_contract_construct_parameter(
    index: u64,
    subindex: u64,
    parameter: &[u8],
    method: &[u8],
    amount: u64,
) -> (out: Vec<u8>)
    requires
        parameter@.len() <= u16::MAX,
        method@.len() <= u16::MAX,
    ensures
        out@ == call_parameter(index, subindex, parameter@, method@, amount),
{
    let mut data = to_bytes(&index);
    subindex.serial(&mut data);
    let parameter_len = parameter.len() as u16;
    parameter_len.serial(&mut data);
    append_bytes(&mut data, parameter);
    let method_len = method.len() as u16;
    method_len.serial(&mut data);
    append_bytes(&mut data, method);
    amount.serial(&mut data);
    data
}

/// `bytes` name a sender: they begin with 0, for an account, or with 1, for
/// a contract, and the address follows.
pub open spec fn sender_valid(bytes: Seq<u8>) -> bool {
    bytes.len() == 1 + ACCOUNT_ADDRESS_SIZE && (bytes[0] == 0 || bytes[0] == 1)
}

/// Whether `bytes` name a sender.
pub fn is_sender(bytes: &[u8]) -> (r: bool)
    ensures
        r == sender_valid(bytes@),
{
    bytes.len() == 1 + ACCOUNT_ADDRESS_SIZE && (bytes[0] == 0 || bytes[0] == 1)
}

/// The sender that `bytes` name: behind a 0 the 32 bytes of the address of
/// an account; behind a 1 the index and the subindex of a contract, eight
/// bytes each in little-endian order.
pub fn parse_sender(bytes: &[u8]) -> (a: Address)
    requires
        sender_valid(bytes@),
    ensures
        bytes@[0] == 0 ==> (a matches Address::Account(address) && address@ == bytes@.subrange(
            1,
            33,
        )),
        bytes@[0] == 1 ==> a == (Address::Contract {
            index: spec_u64_from_le_bytes(bytes@.subrange(1, 9)),
            subindex: spec_u64_from_le_bytes(bytes@.subrange(9, 17)),
        }),
{
    if bytes[0] == 0 {
        Address::Account(vstd::slice::slice_to_vec(vstd::slice::slice_subrange(bytes, 1, 33)))
    } else {
        let index = u64_from_le_bytes(vstd::slice::slice_subrange(bytes, 1, 9));
        let subindex = u64_from_le_bytes(vstd::slice::slice_subrange(bytes, 9, 17));
        Address::Contract { index, subindex }
    }
}

} // verus!
