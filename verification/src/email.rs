//! A sender for the e-mail challenge that delivers nothing: the code is
//! left for the operator to read (the development path, and the fallback
//! when no mail relay is configured). Not for production delivery.

use vstd::prelude::*;

use crate::challenge::EmailSender;

verus! {

/// Accepts every code without delivering it.
pub struct LoggingEmailSender;

impl EmailSender for LoggingEmailSender {
    fn send(&self, address: &str, code: &str) -> (r: Result<(), String>)
        ensures
            r is Ok,
    {
        Ok(())
    }
}

} // verus!
