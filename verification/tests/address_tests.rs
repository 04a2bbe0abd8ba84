use openprotocol::validate::check_address;
use openprotocol::validate::check_string_empty;
use openprotocol::OpenProtocolError;

#[test]
fn address_accepts_all_three_grammars() {
    assert!(check_address("1.02.003.004:05").is_ok());
    assert!(check_address("COM123").is_ok());
    assert!(check_address("ttyABC").is_ok());
    assert!(check_address("127.0.0.1:123").is_ok());
    assert!(check_address("255.255.255.255:65535").is_ok());
    assert!(check_address("COM1").is_ok());
    assert!(check_address("ttyS0").is_ok());
    assert!(check_address("tty_USB0").is_ok());
}

#[test]
fn address_rejects_near_misses() {
    // no port
    assert!(check_address("1.2.3.4").is_err());
    // a zero port is forbidden
    assert!(check_address("1.2.3.4:0").is_err());
    // no digits after COM
    assert!(check_address("COM").is_err());
    // empty
    assert!(check_address("").is_err());
    // out-of-range octet: shaped like a network address, so the serial
    // grammars are not tried
    assert!(check_address("999.0.0.1:5").is_err());
    // port over 16 bits
    assert!(check_address("1.2.3.4:99999").is_err());
    // nothing after tty
    assert!(check_address("tty").is_err());
    // a dash is not a word character
    assert!(check_address("tty-0").is_err());
    // lower-case com is not the serial grammar
    assert!(check_address("com1").is_err());
}

#[test]
fn address_error_names_the_field() {
    match check_address("not an address") {
        Err(OpenProtocolError::InvalidField { field, value, description }) => {
            assert_eq!(field, "ip");
            assert_eq!(value, "not an address");
            assert_eq!(description, "");
        },
        other => panic!("unexpected: {:?}", other),
    }
    match check_address("999.0.0.1:5") {
        Err(OpenProtocolError::InvalidField { field, value, .. }) => {
            assert_eq!(field, "ip[address]");
            assert_eq!(value, "999.0.0.1");
        },
        other => panic!("unexpected: {:?}", other),
    }
    match check_address("1.2.3.4:0") {
        Err(OpenProtocolError::InvalidField { field, value, description }) => {
            assert_eq!(field, "ip[port]");
            assert_eq!(value, "0");
            assert_eq!(description, "IP port cannot be zero.");
        },
        other => panic!("unexpected: {:?}", other),
    }
}

#[test]
fn empty_string_check_reports_the_field() {
    assert!(check_string_empty("x", "name").is_ok());
    match check_string_empty("", "name") {
        Err(OpenProtocolError::InvalidField { field, .. }) => assert_eq!(field, "name"),
        other => panic!("unexpected: {:?}", other),
    }
}
