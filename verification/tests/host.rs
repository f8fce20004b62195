use contract_state::codec::ParseError;
use contract_state::host::{
    invoke_contract_construct_parameter, is_sender, length_prefixed, parse_sender, read_len,
    transfer_parameter, Address,
    ExternParameter, ReturnValue,
};
use contract_state::policies::{AttributesCursor, PoliciesIterator, Policy};
use contract_state::reject::{
    log_result, LogError, NewContractNameError, NewReceiveNameError, NotPayableError, Reject,
};
use contract_state::response::{
    is_call_response, is_transfer_response, parse_call_response_code,
    parse_transfer_response_code, CallContractError, CallResponse, TransferError,
};

#[test]
fn transfer_codes() {
    assert_eq!(parse_transfer_response_code(0), Ok(()));
    assert_eq!(parse_transfer_response_code(0xffff_ff00_0000_0000), Ok(()));
    assert_eq!(
        parse_transfer_response_code(0xffff_ff01_0000_0000),
        Err(TransferError::AmountTooLarge)
    );
    assert_eq!(
        parse_transfer_response_code(0xffff_ff02_0000_0000),
        Err(TransferError::MissingAccount)
    );
    assert!(is_transfer_response(0));
    assert!(is_transfer_response(0xffff_ff02_0000_0000));
    assert!(!is_transfer_response(0xffff_ff03_0000_0000));
    assert!(!is_transfer_response(1));
}

#[test]
fn call_codes_of_success() {
    assert_eq!(parse_call_response_code(0), Ok((false, None)));
    assert_eq!(
        parse_call_response_code(5 << 40),
        Ok((false, Some(CallResponse { i: 5, current_position: 0 })))
    );
    assert_eq!(parse_call_response_code(0x80_0000 << 40), Ok((true, None)));
    assert_eq!(
        parse_call_response_code(0x80_0007 << 40),
        Ok((true, Some(CallResponse { i: 7, current_position: 0 })))
    );
}

#[test]
fn call_codes_of_failure() {
    let failures = [
        (1u64, CallContractError::AmountTooLarge),
        (2, CallContractError::MissingAccount),
        (3, CallContractError::MissingContract),
        (4, CallContractError::MissingEntrypoint),
        (5, CallContractError::MessageFailed),
        (6, CallContractError::Trap),
    ];
    for (kind, error) in failures {
        assert_eq!(parse_call_response_code(0xffff_ff00_0000_0000 | kind << 32), Err(error));
    }
    assert_eq!(
        parse_call_response_code(3 << 40 | 0xffff_fffe),
        Err(CallContractError::LogicReject {
            reason: -2,
            return_value: CallResponse { i: 3, current_position: 0 },
        })
    );
    assert_eq!(
        parse_call_response_code(1 << 40 | 17),
        Err(CallContractError::LogicReject {
            reason: 17,
            return_value: CallResponse { i: 1, current_position: 0 },
        })
    );
}

#[test]
fn call_codes_that_are_none() {
    assert!(is_call_response(0));
    assert!(is_call_response(3 << 40 | 1));
    assert!(!is_call_response(1));
    assert!(!is_call_response(1 << 40 | 7 << 32));
    assert!(is_call_response(1 << 40 | 1 << 32));
    assert!(!is_call_response(7));
    assert!(is_call_response(6 << 32));
    assert!(!is_call_response(0xff << 32));
}

#[test]
fn reject_codes() {
    assert_eq!(Reject::from(()).error_code, i32::MIN + 1);
    assert_eq!(Reject::from(ParseError {}).error_code, i32::MIN + 2);
    assert_eq!(Reject::from(LogError::Full).error_code, i32::MIN + 3);
    assert_eq!(Reject::from(LogError::Malformed).error_code, i32::MIN + 4);
    assert_eq!(Reject::from(NewContractNameError::MissingInitPrefix).error_code, i32::MIN + 5);
    assert_eq!(Reject::from(NewContractNameError::TooLong).error_code, i32::MIN + 6);
    assert_eq!(Reject::from(NewReceiveNameError::MissingDotSeparator).error_code, i32::MIN + 7);
    assert_eq!(Reject::from(NewReceiveNameError::TooLong).error_code, i32::MIN + 8);
    assert_eq!(Reject::from(NewContractNameError::ContainsDot).error_code, i32::MIN + 9);
    assert_eq!(Reject::from(NewContractNameError::InvalidCharacters).error_code, i32::MIN + 10);
    assert_eq!(Reject::from(NewReceiveNameError::InvalidCharacters).error_code, i32::MIN + 11);
    assert_eq!(Reject::from(NotPayableError {}).error_code, i32::MIN + 12);
}

#[test]
fn log_results() {
    assert_eq!(log_result(1), Ok(()));
    assert_eq!(log_result(0), Err(LogError::Full));
    assert_eq!(log_result(-1), Err(LogError::Malformed));
    assert_eq!(log_result(2), Err(LogError::Malformed));
}

#[test]
fn return_value_cursor() {
    let mut rv = ReturnValue::open();
    assert_eq!(rv.current_position, 0);
    assert_eq!(rv.write_len(10), Ok(10));
    assert_eq!(rv.written(7), 7);
    assert_eq!(rv.current_position, 7);
    assert_eq!(rv.write_len(u32::MAX as usize - 7), Ok(u32::MAX - 7));
    assert_eq!(rv.write_len(u32::MAX as usize - 6), Err(()));
    assert_eq!(rv.write_len(usize::MAX), Err(()));
}

#[test]
fn parameter_and_response_cursors() {
    assert_eq!(read_len(5), Ok(5));
    assert_eq!(read_len(u32::MAX as usize), Ok(u32::MAX));
    assert_eq!(read_len(u32::MAX as usize + 1), Err(ParseError {}));
    let mut p = ExternParameter::open();
    assert_eq!(p.has_read(4), 4);
    assert_eq!(p.has_read(2), 2);
    assert_eq!(p.current_position, 6);
    let mut r = CallResponse::new(3);
    assert_eq!(r.has_read(5), Ok(5));
    assert_eq!(r.has_read(-1), Err(ParseError {}));
    assert_eq!(r, CallResponse { i: 3, current_position: 5 });
}

#[test]
fn bytes_behind_their_length() {
    assert_eq!(length_prefixed(&[]), vec![0, 0, 0, 0]);
    assert_eq!(length_prefixed(&[7, 8, 9]), vec![3, 0, 0, 0, 7, 8, 9]);
    let long = vec![1u8; 258];
    let out = length_prefixed(&long);
    assert_eq!(&out[..4], &[2, 1, 0, 0]);
    assert_eq!(&out[4..], &long[..]);
}

#[test]
fn parameter_of_a_transfer() {
    let receiver = [7u8; 32];
    let out = transfer_parameter(&receiver, 0x0102);
    assert_eq!(&out[..32], &receiver[..]);
    assert_eq!(&out[32..], &[2, 1, 0, 0, 0, 0, 0, 0]);
}

#[test]
fn senders() {
    let mut account = vec![0u8];
    account.extend((1..=32).collect::<Vec<u8>>());
    assert!(is_sender(&account));
    match parse_sender(&account) {
        Address::Account(a) => assert_eq!(a, (1..=32).collect::<Vec<u8>>()),
        Address::Contract { .. } => panic!("an account was named"),
    }
    let mut contract = vec![1u8, 5, 0, 0, 0, 0, 0, 0, 0, 0, 1, 0, 0, 0, 0, 0, 0];
    contract.resize(33, 0);
    assert!(is_sender(&contract));
    match parse_sender(&contract) {
        Address::Contract { index, subindex } => assert_eq!((index, subindex), (5, 256)),
        Address::Account(_) => panic!("a contract was named"),
    }
    contract[0] = 2;
    assert!(!is_sender(&contract));
    assert!(!is_sender(&[0; 32]));
}

#[test]
fn walking_the_policies() {
    let mut it = PoliciesIterator::new(&[2, 0]);
    assert_eq!(it.len(), 2);
    assert_eq!(it.size_hint(), (2, Some(2)));
    let mut head = vec![30u8, 0];
    head.extend([9, 0, 0, 0]);
    head.extend([1, 0, 0, 0, 0, 0, 0, 0]);
    head.extend([0, 1, 0, 0, 0, 0, 0, 0]);
    head.extend([3, 0]);
    let policy = it.next(&head).unwrap();
    assert_eq!(
        policy,
        Policy {
            identity_provider: 9,
            created_at: 1,
            valid_to: 256,
            items: AttributesCursor { current_position: 26, remaining_items: 3 },
        }
    );
    assert_eq!((policy.identity_provider(), policy.created_at(), policy.valid_to()), (9, 1, 256));
    assert_eq!(it, PoliciesIterator { pos: 34, remaining_items: 1 });
    assert!(it.next(&head).is_some());
    assert_eq!(it, PoliciesIterator { pos: 66, remaining_items: 0 });
    assert_eq!(it.next(&[]), None);
    assert_eq!(it.len(), 0);
}

#[test]
fn walking_the_attributes() {
    let mut policy = Policy {
        identity_provider: 0,
        created_at: 0,
        valid_to: 0,
        items: AttributesCursor { current_position: 26, remaining_items: 2 },
    };
    assert_eq!(policy.next_item_head(&[4, 3], 2), Some((4, 3)));
    assert_eq!(policy.items, AttributesCursor { current_position: 28, remaining_items: 2 });
    policy.next_item_done(3);
    assert_eq!(policy.items, AttributesCursor { current_position: 31, remaining_items: 1 });
    assert_eq!(policy.next_item_head(&[4, 32], 2), None);
    assert_eq!(policy.items, AttributesCursor { current_position: 33, remaining_items: 1 });
    assert_eq!(policy.next_item_head(&[4, 31], 2), Some((4, 31)));
    policy.next_item_done(31);
    assert_eq!(policy.items.remaining_items, 0);
    let before = policy;
    assert_eq!(policy.next_item_head(&[1, 1], 2), None);
    assert_eq!(policy, before);
}

#[test]
fn parameter_of_a_call() {
    let out = invoke_contract_construct_parameter(3, 0x0100, &[7, 8, 9], b"pay", 5);
    let mut expected = vec![3u8, 0, 0, 0, 0, 0, 0, 0];
    expected.extend([0, 1, 0, 0, 0, 0, 0, 0]);
    expected.extend([3, 0, 7, 8, 9]);
    expected.extend([3, 0]);
    expected.extend(b"pay");
    expected.extend([5, 0, 0, 0, 0, 0, 0, 0]);
    assert_eq!(out, expected);
    assert_eq!(invoke_contract_construct_parameter(0, 0, &[], &[], 0), vec![0u8; 28]);
}
