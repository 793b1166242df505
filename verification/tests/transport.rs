use ink_log::transport::{
    conclude, request, ErrorCode, HostReply, LogRecord, TransportError, FUNC_ID_LOG,
};

#[test]
fn operation_identifier_is_the_reserved_one() {
    assert_eq!(FUNC_ID_LOG, 0xfeffff00);
    assert_eq!(FUNC_ID_LOG, 4278189824);
}

#[test]
fn status_zero_is_success() {
    assert_eq!(ErrorCode::from_status_code(0), Ok(()));
    assert_eq!(conclude(HostReply::Status(0)), Ok(()));
}

#[test]
fn any_other_status_is_an_error() {
    for code in [1u32, 2, 255, 0xfeffff00, u32::MAX] {
        assert_eq!(ErrorCode::from_status_code(code), Err(ErrorCode::Unknown(code)));
        assert_eq!(
            conclude(HostReply::Status(code)),
            Err(TransportError::Status(ErrorCode::Unknown(code)))
        );
    }
}

#[test]
fn a_failed_call_is_an_error() {
    assert_eq!(conclude(HostReply::Failed), Err(TransportError::CallFailed));
}

#[test]
fn a_request_names_the_log_operation_and_carries_the_wire_form() {
    let record = LogRecord { level: 2, target: b"t".to_vec(), args: b"hi".to_vec() };
    let call = request(&record).unwrap();
    assert_eq!(call.func_id, FUNC_ID_LOG);
    assert_eq!(call.input, vec![2, 0, 0, 0, 4, b't', 8, b'h', b'i']);
    assert_eq!(Some(call.input), record.encode());
}
