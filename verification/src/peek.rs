//! First-byte protocol classification: a SOCKS5 handshake starts with 0x05,
//! an HTTP method with an ASCII letter. Nothing else is looked at.

use vstd::prelude::*;

use crate::digest::say;
use crate::text::{hex_digits, hex_text};

verus! {

#[derive(Debug, Clone, Copy, PartialEq, Eq, Structural)]
pub enum InboundProto {
    Socks5,
    Http,
}

#[derive(Debug, Clone, Copy, PartialEq, Eq, Structural)]
pub enum PeekError {
    /// The peer closed the connection before it sent anything.
    Eof,
    /// No byte came in time.
    Timeout,
    /// Neither SOCKS5 nor HTTP.
    Unknown(u8),
}

pub open spec fn ascii_letter(b: u8) -> bool {
    0x41 <= b <= 0x5a || 0x61 <= b <= 0x7a
}

pub open spec fn classified(first: u8) -> Result<InboundProto, PeekError> {
    if first == 0x05 {
        Ok(InboundProto::Socks5)
    } else if ascii_letter(first) {
        Ok(InboundProto::Http)
    } else {
        Err(PeekError::Unknown(first))
    }
}

/// Determine the inbound protocol from the first byte.
pub fn classify(first: u8) -> (r: Result<InboundProto, PeekError>)
    ensures
        r == classified(first),
{
    if first == 0x05 {
        Ok(InboundProto::Socks5)
    } else if (0x41 <= first && first <= 0x5a) || (0x61 <= first && first <= 0x7a) {
        Ok(InboundProto::Http)
    } else {
        Err(PeekError::Unknown(first))
    }
}

pub open spec fn peek_error_text(e: PeekError) -> Seq<char> {
    match e {
        PeekError::Eof => "peer closed the connection before sending any bytes"@,
        PeekError::Timeout => "timed out waiting for the first byte"@,
        PeekError::Unknown(b) => "unrecognized first byte: 0x"@ + hex_digits(b as nat, 2, false)
            + " (neither SOCKS5 nor HTTP)"@,
    }
}

impl PeekError {
    /// The refusal in words.
    pub fn message(&self) -> (r: String)
        ensures
            r@ == peek_error_text(*self),
    {
        match self {
            PeekError::Eof => "peer closed the connection before sending any bytes".to_string(),
            PeekError::Timeout => "timed out waiting for the first byte".to_string(),
            PeekError::Unknown(b) => {
                let mut s = "unrecognized first byte: 0x".to_string();
                let h = hex_text(*b as u64, 2, false);
                say(&mut s, h.as_str());
                say(&mut s, " (neither SOCKS5 nor HTTP)");
                s
            },
        }
    }
}

} // verus!
