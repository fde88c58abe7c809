//! What can go wrong on the RNDIS link.

use vstd::prelude::*;
use vstd::string::*;

use crate::text::{hex_padded, padded_hexadecimal_reads_back, push_hex_padded, value_of};

verus! {

#[derive(Debug)]
pub enum Error {
    Truncated,
    Malformed(&'static str),
    UnexpectedMessage(u32),
    Status(u32),
    NoResponse,
    Transport(String),
}

pub type Result<T> = std::result::Result<T, Error>;

impl Error {
    /// The text shown for this error.
    pub open spec fn text(self) -> Seq<char> {
        match self {
            Error::Truncated => "message truncated"@,
            Error::Malformed(what) => "malformed message: "@ + what@,
            Error::UnexpectedMessage(t) => "unexpected message type 0x"@
                + hex_padded(t as nat, 8),
            Error::Status(s) => "device returned status 0x"@ + hex_padded(
                s as nat,
                8,
            ),
            Error::NoResponse => "no response from device"@,
            Error::Transport(what) => "transport: "@ + what@,
        }
    }

    /// The text shown for this error.
    pub fn message(&self) -> (r: String)
        ensures
            r@ == self.text(),
    {
        match self {
            Error::Truncated => "message truncated".to_owned(),
            Error::Malformed(what) => {
                let mut s = "malformed message: ".to_owned();
                s.append(what);
                s
            },
            Error::UnexpectedMessage(t) => {
                let mut s = "unexpected message type 0x".to_owned();
                push_hex_padded(&mut s, *t, 8);
                s
            },
            Error::Status(status) => {
                let mut s = "device returned status 0x".to_owned();
                push_hex_padded(&mut s, *status, 8);
                s
            },
            Error::NoResponse => "no response from device".to_owned(),
            Error::Transport(what) => {
                let mut s = "transport: ".to_owned();
                s.append(what.as_str());
                s
            },
        }
    }
}

/// Each error says what went wrong, with the words, the status or the type that came
/// with it; numbers stand there as eight hexadecimal digits.
pub proof fn errors_say_what_went_wrong(words: &'static str, reason: String, n: u32)
    ensures
        Error::Truncated.text() == "message truncated"@,
        Error::Malformed(words).text() == "malformed message: "@ + words@,
        Error::NoResponse.text() == "no response from device"@,
        Error::Transport(reason).text() == "transport: "@ + reason@,
        exists|digits: Seq<char>|
            {
                &&& digits.len() == 8
                &&& #[trigger] value_of(digits, 16) == n
                &&& Error::UnexpectedMessage(n).text() == "unexpected message type 0x"@ + digits
                &&& Error::Status(n).text() == "device returned status 0x"@ + digits
            },
{
    let digits = hex_padded(n as nat, 8);
    padded_hexadecimal_reads_back(n as nat, 8);
    assert(vstd::arithmetic::power::pow(16, 8) == 0x1_0000_0000) by {
        reveal(vstd::arithmetic::power::pow);
        reveal_with_fuel(vstd::arithmetic::power::pow, 9);
    }
    assert(value_of(digits, 16) == n);
}

} // verus!
