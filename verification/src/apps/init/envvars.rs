//! The shell's environment: a fixed table of `KEY=VALUE` pairs.
use vstd::prelude::*;
use vstd::string::StringSliceAdditionalSpecFns;
use crate::bytes::{bytes_eq, copy_range, append_bytes};

verus! {

pub const MAX_ENV_VARS: usize = 16;
pub const MAX_KEY_LEN: usize = 32;
pub const MAX_VAL_LEN: usize = 64;
/// Longest environment string handed to a program.
pub const MAX_ENV_STR: usize = 511;

/// One entry; an entry with an empty key is unused.
pub struct EnvVar {
    pub key: Vec<u8>,
    pub val: Vec<u8>,
}

/// The environment table.
pub struct EnvTable {
    pub vars: Vec<EnvVar>,
}

/// The table as key/value pairs.
pub open spec fn env_model(vars: Seq<EnvVar>) -> Seq<(Seq<u8>, Seq<u8>)> {
    Seq::new(vars.len(), |i: int| (vars[i].key@, vars[i].val@))
}

impl EnvTable {
    pub open spec fn view(&self) -> Seq<(Seq<u8>, Seq<u8>)> {
        env_model(self.vars@)
    }

    pub open spec fn wf(&self) -> bool {
        env_wf(self@)
    }

    /// An empty environment.
    pub fn new() -> (t: Self)
        ensures
            t.wf(),
            t@ == spec_empty_env(),
            forall|i: int| 0 <= i < MAX_ENV_VARS ==> (#[trigger] t@[i]).0.len() == 0,
    {
        let mut vars: Vec<EnvVar> = Vec::new();
        let mut i: usize = 0;
        while i < MAX_ENV_VARS
            invariant
                i <= MAX_ENV_VARS,
                vars@.len() == i,
                forall|j: int| 0 <= j < i ==> (#[trigger] vars@[j]).key@.len() == 0
                    && vars@[j].val@.len() == 0,
            decreases MAX_ENV_VARS - i,
        {
            vars.push(EnvVar { key: Vec::new(), val: Vec::new() });
            i = i + 1;
        }
        let t = EnvTable { vars };
        assert forall|j: int| 0 <= j < MAX_ENV_VARS implies t@[j] == spec_empty_env()[j] by {
            assert(t.vars@[j].key@ =~= Seq::<u8>::empty());
            assert(t.vars@[j].val@ =~= Seq::<u8>::empty());
        }
        assert(t@ =~= spec_empty_env());
        t
    }
}

/// The environment with every entry unused.
pub open spec fn spec_empty_env() -> Seq<(Seq<u8>, Seq<u8>)> {
    Seq::new(MAX_ENV_VARS as nat, |i: int| (Seq::<u8>::empty(), Seq::<u8>::empty()))
}

pub open spec fn env_wf(m: Seq<(Seq<u8>, Seq<u8>)>) -> bool {
    &&& m.len() == MAX_ENV_VARS
    &&& forall|i: int|
        0 <= i < m.len() ==> (#[trigger] m[i]).0.len() <= MAX_KEY_LEN && m[i].1.len()
            <= MAX_VAL_LEN
}

/// The index of the first entry at or after `i` whose key is `key` (or the length).
pub open spec fn spec_env_find(m: Seq<(Seq<u8>, Seq<u8>)>, key: Seq<u8>, i: nat) -> nat
    decreases m.len() - i,
{
    if i >= m.len() {
        m.len()
    } else if m[i as int].0 == key {
        i
    } else {
        spec_env_find(m, key, i + 1)
    }
}

/// The index of the first unused entry at or after `i` (or the length).
pub open spec fn spec_env_free(m: Seq<(Seq<u8>, Seq<u8>)>, i: nat) -> nat
    decreases m.len() - i,
{
    if i >= m.len() {
        m.len()
    } else if m[i as int].0.len() == 0 {
        i
    } else {
        spec_env_free(m, i + 1)
    }
}

/// The value of `key`.
pub open spec fn spec_get_env(m: Seq<(Seq<u8>, Seq<u8>)>, key: Seq<u8>) -> Option<Seq<u8>> {
    let f = spec_env_find(m, key, 0);
    if f < m.len() {
        Some(m[f as int].1)
    } else {
        None
    }
}

/// Setting `key` to `val`: the table after, and the message printed.
pub open spec fn spec_set_env(m: Seq<(Seq<u8>, Seq<u8>)>, key: Seq<u8>, val: Seq<u8>) -> (Seq<
    (Seq<u8>, Seq<u8>),
>, Seq<u8>) {
    if key.len() > MAX_KEY_LEN || val.len() > MAX_VAL_LEN {
        (m, "error: env var too long\n".spec_bytes())
    } else {
        let f = spec_env_find(m, key, 0);
        if f < m.len() {
            (m.update(f as int, (m[f as int].0, val)), Seq::empty())
        } else {
            let e = spec_env_free(m, 0);
            if e < m.len() {
                (m.update(e as int, (key, val)), Seq::empty())
            } else {
                (m, "error: too many env vars\n".spec_bytes())
            }
        }
    }
}

/// Whether setting `key` to `val` succeeds: both fit, and the key is set
/// already or an entry is free.
pub open spec fn spec_set_env_accepts(m: Seq<(Seq<u8>, Seq<u8>)>, key: Seq<u8>, val: Seq<u8>) -> bool {
    &&& key.len() <= MAX_KEY_LEN
    &&& val.len() <= MAX_VAL_LEN
    &&& (spec_env_find(m, key, 0) < m.len() || spec_env_free(m, 0) < m.len())
}

/// The environment string: `KEY=VALUE\n` for each used entry in order, up to
/// the first one that would make it longer than `MAX_ENV_STR` bytes.
pub open spec fn spec_build_env(m: Seq<(Seq<u8>, Seq<u8>)>, n: nat) -> (Seq<u8>, bool)
    decreases n,
{
    if n == 0 {
        (Seq::empty(), false)
    } else {
        let (t, stopped) = spec_build_env(m, (n - 1) as nat);
        if stopped {
            (t, true)
        } else {
            let (k, v) = m[n - 1];
            if k.len() > 0 {
                let pair = k + seq![0x3du8] + v + seq![0x0au8];
                if t.len() + pair.len() > MAX_ENV_STR {
                    (t, true)
                } else {
                    (t + pair, false)
                }
            } else {
                (t, false)
            }
        }
    }
}

proof fn lemma_find_props(m: Seq<(Seq<u8>, Seq<u8>)>, key: Seq<u8>, i: nat)
    ensures
        i <= m.len() ==> i <= spec_env_find(m, key, i) <= m.len(),
        spec_env_find(m, key, i) < m.len() ==> m[spec_env_find(m, key, i) as int].0 == key,
        forall|j: int| i <= j < spec_env_find(m, key, i) ==> m[j].0 != key,
    decreases m.len() - i,
{
    if i < m.len() && m[i as int].0 != key {
        lemma_find_props(m, key, i + 1);
    }
}

/// Setting a variable keeps the table well formed; afterwards the variable
/// reads back as set, and every other variable reads as before.
pub proof fn lemma_set_then_get(m: Seq<(Seq<u8>, Seq<u8>)>, key: Seq<u8>, val: Seq<u8>, other: Seq<
    u8,
>)
    requires
        env_wf(m),
        key.len() > 0,
        other.len() > 0,
        other != key,
    ensures
        env_wf(spec_set_env(m, key, val).0),
        spec_set_env_accepts(m, key, val) ==> spec_get_env(spec_set_env(m, key, val).0, key)
            == Some(val),
        spec_get_env(spec_set_env(m, key, val).0, other) == spec_get_env(m, other),
{
    let m2 = spec_set_env(m, key, val).0;
    lemma_find_props(m, key, 0);
    lemma_find_props(m2, key, 0);
    lemma_find_props(m, other, 0);
    lemma_find_props(m2, other, 0);
    lemma_free_props(m, 0);
    if !(key.len() > MAX_KEY_LEN || val.len() > MAX_VAL_LEN) {
        let f = spec_env_find(m, key, 0);
        let idx = if f < m.len() {
            f as int
        } else {
            spec_env_free(m, 0) as int
        };
        if idx < m.len() {
            assert(m2[idx].0 == key);
            let fk = spec_env_find(m2, key, 0);
            if fk < idx {
                assert(m2[fk as int] == m[fk as int]);
                if f < m.len() {
                    assert(false);
                } else {
                    assert(m[fk as int].0 == key);
                    assert(false);
                }
            }
            if fk > idx {
                assert(m2[idx].0 != key);
            }
            assert(fk == idx);
            let fo = spec_env_find(m, other, 0);
            let fo2 = spec_env_find(m2, other, 0);
            if fo2 < fo {
                if fo2 as int == idx {
                    assert(m2[idx].0 == key);
                } else {
                    assert(m2[fo2 as int] == m[fo2 as int]);
                }
                assert(false);
            }
            if fo < fo2 {
                if fo as int == idx {
                    if f < m.len() {
                        assert(m[idx].0 == key);
                    } else {
                        assert(m[idx].0.len() == 0);
                        assert(m[fo as int].0 == other);
                        if other.len() == 0 {
                            assert(false);
                        }
                    }
                } else {
                    assert(m2[fo as int] == m[fo as int]);
                }
                assert(false);
            }
            if fo < m.len() && fo as int == idx {
                if f < m.len() {
                    assert(m[idx].0 == key);
                } else {
                    assert(m[idx].0.len() == 0);
                }
            }
            if fo < m.len() && fo as int != idx {
                assert(m2[fo as int] == m[fo as int]);
            }
        }
    }
}

proof fn lemma_free_props(m: Seq<(Seq<u8>, Seq<u8>)>, i: nat)
    ensures
        i <= m.len() ==> i <= spec_env_free(m, i) <= m.len(),
        spec_env_free(m, i) < m.len() ==> m[spec_env_free(m, i) as int].0.len() == 0,
        forall|j: int| i <= j < spec_env_free(m, i) ==> m[j].0.len() != 0,
    decreases m.len() - i,
{
    if i < m.len() && m[i as int].0.len() != 0 {
        lemma_free_props(m, i + 1);
    }
}

fn str_vec(s: &str) -> (v: Vec<u8>)
    ensures
        v@ == s.spec_bytes(),
{
    let b = s.as_bytes();
    copy_range(b, 0, b.len())
}

/// Sets `key` to `val`; gives the error message printed, if any.
pub fn set_env(t: &mut EnvTable, key: &[u8], val: &[u8]) -> (msg: Vec<u8>)
    requires
        old(t).wf(),
    ensures
        final(t).wf(),
        final(t)@ == spec_set_env(old(t)@, key@, val@).0,
        msg@ == spec_set_env(old(t)@, key@, val@).1,
{
    proof {
        lemma_find_props(t@, key@, 0);
        lemma_free_props(t@, 0);
    }
    if key.len() > MAX_KEY_LEN || val.len() > MAX_VAL_LEN {
        return str_vec("error: env var too long\n");
    }
    let mut i: usize = 0;
    while i < MAX_ENV_VARS
        invariant
            i <= MAX_ENV_VARS,
            t.wf(),
            t@ == old(t)@,
            key@.len() <= MAX_KEY_LEN,
            val@.len() <= MAX_VAL_LEN,
            spec_env_find(t@, key@, 0) == spec_env_find(t@, key@, i as nat),
        decreases MAX_ENV_VARS - i,
    {
        if bytes_eq(t.vars[i].key.as_slice(), key) {
            let ghost before = t@;
            let ghost bv = t.vars@;
            let k = copy_range(t.vars[i].key.as_slice(), 0, t.vars[i].key.len());
            t.vars.set(i, EnvVar { key: k, val: copy_range(val, 0, val.len()) });
            assert forall|j: int| 0 <= j < MAX_ENV_VARS implies t@[j] == before.update(
                i as int,
                (before[i as int].0, val@),
            )[j] by {
                if j != i {
                    assert(t.vars@[j] == bv[j]);
                }
            }
            assert(t@ =~= before.update(i as int, (before[i as int].0, val@)));
            return Vec::new();
        }
        i = i + 1;
    }
    let mut e: usize = 0;
    while e < MAX_ENV_VARS && t.vars[e].key.len() != 0
        invariant
            e <= MAX_ENV_VARS,
            t.wf(),
            t@ == old(t)@,
            spec_env_free(t@, 0) == spec_env_free(t@, e as nat),
        decreases MAX_ENV_VARS - e,
    {
        e = e + 1;
    }
    if e == MAX_ENV_VARS {
        return str_vec("error: too many env vars\n");
    }
    let ghost before = t@;
    let ghost bv = t.vars@;
    t.vars.set(e, EnvVar { key: copy_range(key, 0, key.len()), val: copy_range(val, 0, val.len()) });
    assert forall|j: int| 0 <= j < MAX_ENV_VARS implies t@[j] == before.update(
        e as int,
        (key@, val@),
    )[j] by {
        if j != e {
            assert(t.vars@[j] == bv[j]);
        }
    }
    assert(t@ =~= before.update(e as int, (key@, val@)));
    Vec::new()
}

/// The value of `key`, if it is set.
pub fn get_env<'a>(t: &'a EnvTable, key: &[u8]) -> (r: Option<&'a [u8]>)
    requires
        t.wf(),
    ensures
        match spec_get_env(t@, key@) {
            Some(v) => r matches Some(x) && x@ == v,
            None => r is None,
        },
{
    let mut i: usize = 0;
    while i < MAX_ENV_VARS
        invariant
            i <= MAX_ENV_VARS,
            t.wf(),
            spec_env_find(t@, key@, 0) == spec_env_find(t@, key@, i as nat),
        decreases MAX_ENV_VARS - i,
    {
        if bytes_eq(t.vars[i].key.as_slice(), key) {
            return Some(t.vars[i].val.as_slice());
        }
        i = i + 1;
    }
    None
}

/// The environment string handed to programs.
pub fn build_env_str(t: &EnvTable) -> (r: Vec<u8>)
    requires
        t.wf(),
    ensures
        r@ == spec_build_env(t@, MAX_ENV_VARS as nat).0,
        r@.len() <= MAX_ENV_STR,
{
    let mut buf: Vec<u8> = Vec::new();
    let mut i: usize = 0;
    while i < MAX_ENV_VARS
        invariant
            i <= MAX_ENV_VARS,
            t.wf(),
            buf@.len() <= MAX_ENV_STR,
            spec_build_env(t@, i as nat) == (buf@, false),
        ensures
            buf@.len() <= MAX_ENV_STR,
            spec_build_env(t@, MAX_ENV_VARS as nat).0 == buf@,
        decreases MAX_ENV_VARS - i,
    {
        let kl = t.vars[i].key.len();
        assert(t@[i as int].0.len() == kl);
        if kl > 0 {
            let vl = t.vars[i].val.len();
            assert(t@[i as int].1.len() == vl);
            let pair_len = kl + 1 + vl + 1;
            if buf.len() + pair_len > MAX_ENV_STR {
                proof {
                    lemma_build_stopped(t@, (i + 1) as nat);
                }
                break;
            }
            append_bytes(&mut buf, t.vars[i].key.as_slice());
            buf.push(0x3d);
            append_bytes(&mut buf, t.vars[i].val.as_slice());
            buf.push(0x0a);
            proof {
                let (k, v) = t@[i as int];
                assert(buf@ =~= spec_build_env(t@, i as nat).0 + (k + seq![0x3du8] + v + seq![
                    0x0au8,
                ]));
            }
        }
        i = i + 1;
    }
    buf
}

proof fn lemma_build_stopped(m: Seq<(Seq<u8>, Seq<u8>)>, n: nat)
    requires
        spec_build_env(m, n).1,
        n <= MAX_ENV_VARS,
    ensures
        spec_build_env(m, MAX_ENV_VARS as nat).0 == spec_build_env(m, n).0,
    decreases MAX_ENV_VARS - n,
{
    if n < MAX_ENV_VARS {
        lemma_build_stopped(m, n + 1);
    }
}

} // verus!
