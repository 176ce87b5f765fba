//! `echo`: prints its arguments and a line end.
use vstd::prelude::*;
use vstd::string::StringSliceAdditionalSpecFns;
use crate::bytes::copy_range;
use crate::writes::{one_write, push_write, single, writes_view};

verus! {

/// The writes `echo args` makes: the arguments (when there are any), then
/// a line end, each in a write of its own.
pub fn run(args: &str) -> (out: Vec<Vec<u8>>)
    ensures
        writes_view(out@) == one_write(args.spec_bytes()) + seq![seq![0x0au8]],
{
    let b = args.as_bytes();
    let mut out = single(copy_range(b, 0, b.len()));
    assert(b@.subrange(0, b@.len() as int) =~= b@);
    let mut nl: Vec<u8> = Vec::new();
    nl.push(0x0a);
    push_write(&mut out, nl);
    assert(one_write(seq![0x0au8]) =~= seq![seq![0x0au8]]);
    out
}

} // verus!
