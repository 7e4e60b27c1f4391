//! Creation timestamps at rest: the store keeps an RFC 3339 text, and a
//! `Timestamp` is such a text that the date-time parser has accepted.

use vstd::prelude::*;

verus! {

/// Whether a text is a well-formed RFC 3339 date-time, as the date-time
/// parser of the `chrono` crate decides it.
pub uninterp spec fn is_rfc3339(s: Seq<char>) -> bool;

/// Relies on `chrono::DateTime::parse_from_rfc3339`: whether the text is a
/// well-formed RFC 3339 date-time; the answer depends on the text alone.
#[verifier::external_body]
fn rfc3339_check(s: &str) -> (r: bool)
    ensures
        r == is_rfc3339(s@),
{
    chrono::DateTime::parse_from_rfc3339(s).is_ok()
}

/// A creation timestamp: the RFC 3339 text under which an event is stored.
#[derive(Debug)]
pub struct Timestamp {
    raw: String,
}

impl View for Timestamp {
    type V = Seq<char>;

    closed spec fn view(&self) -> Seq<char> {
        self.raw@
    }
}

impl Clone for Timestamp {
    fn clone(&self) -> (r: Self)
        ensures
            r@ == self@,
    {
        proof {
            use_type_invariant(self);
        }
        Timestamp { raw: self.raw.clone() }
    }
}

impl Timestamp {
    /// Every timestamp carries a text the date-time parser accepts.
    #[verifier::type_invariant]
    pub open spec fn wf(self) -> bool {
        is_rfc3339(self@)
    }

    /// Accepts exactly the well-formed RFC 3339 texts and keeps the text
    /// as given.
    pub fn parse(s: &str) -> (r: Option<Timestamp>)
        ensures
            r is Some <==> is_rfc3339(s@),
            r matches Some(t) ==> t@ == s@,
    {
        if rfc3339_check(s) {
            Some(Timestamp { raw: s.to_owned() })
        } else {
            None
        }
    }

    pub fn as_str(&self) -> (r: &str)
        ensures
            r@ == self@,
    {
        self.raw.as_str()
    }
}

} // verus!
