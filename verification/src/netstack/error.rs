//! What can be wrong with a packet.

use vstd::prelude::*;

verus! {

#[derive(Debug, PartialEq, Eq)]
pub enum Error {
    Truncated,
    Malformed(&'static str),
}

pub type Result<T> = std::result::Result<T, Error>;

impl Error {
    /// The text shown for this error.
    pub open spec fn text(self) -> Seq<char> {
        match self {
            Error::Truncated => "packet truncated"@,
            Error::Malformed(what) => "malformed packet: "@ + what@,
        }
    }

    /// The text shown for this error.
    pub fn message(&self) -> (r: String)
        ensures
            r@ == self.text(),
    {
        match self {
            Error::Truncated => "packet truncated".to_owned(),
            Error::Malformed(what) => {
                let mut s = "malformed packet: ".to_owned();
                s.append(what);
                s
            },
        }
    }
}

/// Each error says what is wrong with the packet.
pub proof fn errors_say_what_is_wrong(what: &'static str)
    ensures
        Error::Truncated.text() == "packet truncated"@,
        Error::Malformed(what).text() == "malformed packet: "@ + what@,
{
}

} // verus!
