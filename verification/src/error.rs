//! Errors that result from the incorrect use of the library.

use vstd::prelude::*;

verus! {

/// Relays error messages resulting from quantr.
#[derive(Debug)]
pub struct QuantrError {
    pub message: String,
}

impl QuantrError {
    /// The text with which the error presents itself: the message in bright red after a
    /// `[Quantr Error]` tag.
    pub fn to_string(&self) -> (res: String)
        ensures
            res@ == "\x1b[91m[Quantr Error] "@ + self.message@ + "\x1b[0m "@,
    {
        let mut res = String::from_str("\x1b[91m[Quantr Error] ");
        res.append(self.message.as_str());
        res.append("\x1b[0m ");
        res
    }
}

} // verus!
