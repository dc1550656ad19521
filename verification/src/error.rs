//! The unified error type of the library.

use vstd::prelude::*;

verus! {

/// The unified error type returned by the VPN engine and its commands.
///
/// `Io` and `Other` carry the rendered text of an I/O failure or of a failure
/// reported by a lower layer; the library itself only produces `Message`.
#[derive(Debug)]
pub enum VpnError {
    Message(String),
    Io(String),
    Other(String),
}

impl VpnError {
    /// Build a plain message error.
    pub fn msg(s: &str) -> (e: VpnError)
        ensures
            e matches VpnError::Message(m) && m@ == s@,
    {
        VpnError::Message(s.to_owned())
    }

    /// The text of the error as the user sees it.
    pub open spec fn text(&self) -> Seq<char> {
        match self {
            VpnError::Message(m) => m@,
            VpnError::Io(m) => m@,
            VpnError::Other(m) => m@,
        }
    }

    /// The text of the error as the user sees it (what its `Display` shows).
    pub fn to_text(&self) -> (s: String)
        ensures
            s@ == self.text(),
    {
        match self {
            VpnError::Message(m) => m.clone(),
            VpnError::Io(m) => m.clone(),
            VpnError::Other(m) => m.clone(),
        }
    }
}

} // verus!
