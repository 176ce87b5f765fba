//! `env`: prints the environment string it was started with.
use vstd::prelude::*;
use vstd::string::StringSliceAdditionalSpecFns;
use crate::bytes::copy_range;
use crate::writes::{one_write, single, writes_view};

verus! {

/// The writes `env` makes, given its environment string: the string in
/// one write (none when it is empty).
pub fn run(env: &str) -> (out: Vec<Vec<u8>>)
    ensures
        writes_view(out@) == one_write(env.spec_bytes()),
{
    let b = env.as_bytes();
    assert(b@.subrange(0, b@.len() as int) =~= b@);
    single(copy_range(b, 0, b.len()))
}

} // verus!
