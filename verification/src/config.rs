//! Runtime configuration values that the verified logic reads.

use vstd::prelude::*;

use crate::strutil::str_eq_str;

verus! {

/// How often a support budget recurs.
#[derive(Debug, Clone, Copy, PartialEq, Eq, Structural)]
pub enum Cadence {
    Monthly,
    Yearly,
}

impl Cadence {
    /// The stable lowercase label of this cadence, as stored on disk.
    pub fn label(&self) -> (r: &'static str)
        ensures
            *self is Monthly ==> r@ == "monthly"@,
            *self is Yearly ==> r@ == "yearly"@,
    {
        match self {
            Cadence::Monthly => "monthly",
            Cadence::Yearly => "yearly",
        }
    }
}

/// Parse a stored cadence label; anything but `yearly` falls back to the
/// monthly default.
pub fn parse_cadence(s: &str) -> (r: Cadence)
    ensures
        s@ == "yearly"@ ==> r is Yearly,
        s@ != "yearly"@ ==> r is Monthly,
{
    if str_eq_str(s, "yearly") {
        Cadence::Yearly
    } else {
        Cadence::Monthly
    }
}

/// The currency assumed when none is configured.
pub fn default_currency() -> (r: String)
    ensures
        r@ == "USD"@,
{
    "USD".to_owned()
}

} // verus!
