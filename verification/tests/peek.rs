//! First-byte classification of inbound connections.

use causeway::peek::{classify, InboundProto, PeekError};

#[test]
fn socks5_handshake_byte() {
    assert_eq!(classify(0x05).unwrap(), InboundProto::Socks5);
}

#[test]
fn http_methods() {
    for m in [
        "GET", "CONNECT", "POST", "HEAD", "PUT", "OPTIONS", "DELETE", "PATCH",
    ] {
        assert_eq!(classify(m.as_bytes()[0]).unwrap(), InboundProto::Http, "{m}");
    }
}

#[test]
fn unknown_bytes_rejected() {
    assert!(matches!(classify(0x04), Err(PeekError::Unknown(0x04))));
    assert!(matches!(classify(0x00), Err(PeekError::Unknown(0x00))));
    assert!(matches!(classify(0x16), Err(PeekError::Unknown(0x16))));
}

#[test]
fn every_first_byte_is_classified_by_ascii_letters() {
    for byte in 0u8..=255 {
        let got = classify(byte);
        if byte == 5 {
            assert_eq!(got, Ok(InboundProto::Socks5));
        } else if byte.is_ascii_alphabetic() {
            assert_eq!(got, Ok(InboundProto::Http));
        } else {
            assert_eq!(got, Err(PeekError::Unknown(byte)));
        }
    }
}

#[test]
fn peek_errors_are_spelled_out() {
    assert_eq!(
        PeekError::Eof.message(),
        "peer closed the connection before sending any bytes"
    );
    assert_eq!(PeekError::Timeout.message(), "timed out waiting for the first byte");
    assert!(PeekError::Unknown(0x16).message().contains("16"));
}
