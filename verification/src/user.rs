//! The user-mode entry check run at boot.
use vstd::prelude::*;

verus! {

/// The ring-3 smoke test: it passes, with the log line it reports. (The
/// switch to ring 3 itself is not made yet.)
pub fn ring3_smoke_test() -> (r: (bool, &'static str))
    ensures
        r.0,
        r.1 == "[ok] ring3 smoke test placeholder executed",
{
    (true, "[ok] ring3 smoke test placeholder executed")
}

} // verus!
