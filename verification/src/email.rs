//! Validated, normalized email addresses.
//!
//! An address is accepted only if its ASCII-lowercased form passes RFC
//! validation; the normalized form is what the crate stores and compares,
//! so one subscriber record exists per normalized address.

use vstd::prelude::*;
use crate::text::{ascii_lowercase, lower_seq, lemma_lower_seq_idempotent};

verus! {

/// Whether a character sequence is a valid email address.
/// The meaning is fixed by the trusted `email_is_valid` wrapper below.
pub uninterp spec fn valid_email(s: Seq<char>) -> bool;

/// Relies on email_address::EmailAddress::is_valid: RFC 5321/5322 grammar
/// validation of an address; a pure function of the characters alone.
#[verifier::external_body]
fn email_is_valid(s: &str) -> (r: bool)
    ensures
        r == valid_email(s@),
{
    email_address::EmailAddress::is_valid(s)
}

/// A validated email address, held in ASCII-lowercased (normalized) form.
pub struct EmailAddr {
    addr: String,
}

impl View for EmailAddr {
    type V = Seq<char>;

    closed spec fn view(&self) -> Seq<char> {
        self.addr@
    }
}

impl EmailAddr {
    /// The address is valid and is a lowercasing fixed point.
    pub open spec fn wf(&self) -> bool {
        valid_email(self@) && lower_seq(self@) == self@
    }

    /// Parse and normalize an address. Accepts exactly the inputs whose
    /// lowercased form is a valid address.
    pub fn parse(s: &str) -> (r: Option<EmailAddr>)
        ensures
            r is Some <==> valid_email(lower_seq(s@)),
            r is Some ==> r->Some_0.wf() && r->Some_0@ == lower_seq(s@),
    {
        let lowered = ascii_lowercase(s);
        if email_is_valid(lowered.as_str()) {
            proof {
                lemma_lower_seq_idempotent(s@);
            }
            Some(EmailAddr { addr: lowered })
        } else {
            None
        }
    }

    /// The normalized address as a string slice.
    pub fn as_str(&self) -> (r: &str)
        ensures
            r@ == self@,
    {
        self.addr.as_str()
    }

    /// Character-for-character comparison with a string slice.
    pub fn eq_str(&self, other: &str) -> (r: bool)
        ensures
            r == (self@ == other@),
    {
        crate::text::string_eq_str(&self.addr, other)
    }
}

impl Clone for EmailAddr {
    fn clone(&self) -> (r: Self)
        ensures
            r == *self,
    {
        EmailAddr { addr: self.addr.clone() }
    }
}

} // verus!
