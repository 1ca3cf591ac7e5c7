use dispatchers::error::decimal_text;
use dispatchers::DispatcherError;

#[test]
fn numbers_are_written_in_decimal() {
    assert_eq!(decimal_text(0), "0");
    assert_eq!(decimal_text(7), "7");
    assert_eq!(decimal_text(9), "9");
    assert_eq!(decimal_text(10), "10");
    assert_eq!(decimal_text(120), "120");
    assert_eq!(decimal_text(1234567890), "1234567890");
    assert_eq!(decimal_text(u64::MAX), "18446744073709551615");
}

#[test]
fn a_send_error_says_what_the_channel_said() {
    let error = DispatcherError::SendError("channel closed".to_owned());
    assert_eq!(
        error.to_text(),
        "error while sending message: channel closed"
    );
    assert_eq!(
        DispatcherError::SendError(String::new()).to_text(),
        "error while sending message: "
    );
}

#[test]
fn a_receive_error_says_what_the_channel_said() {
    let error = DispatcherError::RecvError("channel closed".to_owned());
    assert_eq!(
        error.to_text(),
        "error while receinging message: channel closed"
    );
}

#[test]
fn a_lag_says_how_many_messages_were_lost() {
    assert_eq!(
        DispatcherError::Lagged(3).to_text(),
        "error while receinging message: channel lagged by 3"
    );
    assert_eq!(
        DispatcherError::Lagged(40).to_text(),
        "error while receinging message: channel lagged by 40"
    );
}
