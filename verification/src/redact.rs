//! Hiding secrets in debug output.
use vstd::prelude::*;

verus! {

/// Stands for a secret value in debug output.
#[derive(Clone, Copy, PartialEq, Eq, Structural)]
pub struct Redacted;

/// The text `[REDACTED]`.
pub open spec fn redacted_text() -> Seq<char> {
    seq!['[', 'R', 'E', 'D', 'A', 'C', 'T', 'E', 'D', ']']
}

impl Redacted {
    /// The debug text that stands for the secret.
    pub fn to_debug_string(&self) -> (t: String)
        ensures
            t@ == redacted_text(),
    {
        proof {
            reveal_strlit("[REDACTED]");
        }
        let t = String::from_str("[REDACTED]");
        assert(t@ =~= redacted_text());
        t
    }
}

/// `Some(Redacted)` where a value is present, without revealing it.
pub fn redact_option<T>(value: &Option<T>) -> (r: Option<Redacted>)
    ensures
        r.is_some() == value.is_some(),
{
    match value {
        Some(_) => Some(Redacted),
        None => None,
    }
}

} // verus!
