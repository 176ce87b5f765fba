//! Program output as the write calls that make it: each chunk is one call.
//! An empty write reaches nothing, so the steps leave such calls out.
use vstd::prelude::*;
use vstd::string::StringSliceAdditionalSpecFns;
use crate::bytes::copy_range;

verus! {

/// The bytes of each write call, in order.
pub open spec fn writes_view(w: Seq<Vec<u8>>) -> Seq<Seq<u8>> {
    w.map_values(|c: Vec<u8>| c@)
}

/// The write calls that print `out` in one call (none when it is empty).
pub open spec fn one_write(out: Seq<u8>) -> Seq<Seq<u8>> {
    if out.len() == 0 {
        Seq::empty()
    } else {
        seq![out]
    }
}

/// Three write calls, one after the other (empty ones left out).
pub open spec fn writes3(a: Seq<u8>, b: Seq<u8>, c: Seq<u8>) -> Seq<Seq<u8>> {
    one_write(a) + one_write(b) + one_write(c)
}

/// The writes `w`, then one of `out`.
pub fn push_write(w: &mut Vec<Vec<u8>>, out: Vec<u8>)
    ensures
        writes_view(final(w)@) == writes_view(old(w)@) + one_write(out@),
        final(w)@.len() == old(w)@.len() + one_write(out@).len(),
{
    if out.len() > 0 {
        let ghost before = w@;
        w.push(out);
        assert(writes_view(w@) =~= writes_view(before) + one_write(out@));
    } else {
        assert(writes_view(w@) =~= writes_view(w@) + one_write(out@));
    }
}

/// The writes `w`, then the writes `more`.
pub fn append_writes(w: &mut Vec<Vec<u8>>, more: Vec<Vec<u8>>)
    ensures
        writes_view(final(w)@) == writes_view(old(w)@) + writes_view(more@),
{
    let ghost before = writes_view(w@);
    let ghost m = writes_view(more@);
    let rest = more;
    let n = rest.len();
    let mut i: usize = 0;
    while i < n
        invariant
            i <= n,
            n == m.len(),
            rest@.len() == n,
            writes_view(rest@) == m,
            writes_view(w@) == before + m.subrange(0, i as int),
        decreases n - i,
    {
        let c = copy_range(rest[i].as_slice(), 0, rest[i].len());
        assert(rest@[i as int]@.subrange(0, rest@[i as int]@.len() as int) =~= rest@[i as int]@);
        let ghost prev = w@;
        w.push(c);
        assert(writes_view(w@) =~= writes_view(prev).push(m[i as int]));
        assert(m.subrange(0, i + 1) =~= m.subrange(0, i as int).push(m[i as int]));
        i = i + 1;
    }
    assert(m.subrange(0, n as int) =~= m);
}

/// One write of `out` (none when it is empty).
pub fn single(out: Vec<u8>) -> (w: Vec<Vec<u8>>)
    ensures
        writes_view(w@) == one_write(out@),
        w@.len() == one_write(out@).len(),
{
    let mut w: Vec<Vec<u8>> = Vec::new();
    assert(writes_view(w@) =~= Seq::<Seq<u8>>::empty());
    push_write(&mut w, out);
    w
}

fn str_bytes(s: &str) -> (v: Vec<u8>)
    ensures
        v@ == s.spec_bytes(),
{
    let b = s.as_bytes();
    assert(b@.subrange(0, b@.len() as int) =~= b@);
    copy_range(b, 0, b.len())
}

/// The writes of `a`, then `b`, then `c`.
pub fn three(a: &str, b: &[u8], c: &str) -> (w: Vec<Vec<u8>>)
    ensures
        writes_view(w@) == writes3(a.spec_bytes(), b@, c.spec_bytes()),
{
    let mut w = single(str_bytes(a));
    let bv = copy_range(b, 0, b.len());
    assert(b@.subrange(0, b@.len() as int) =~= b@);
    push_write(&mut w, bv);
    push_write(&mut w, str_bytes(c));
    w
}

} // verus!
