//! The in-memory file table: lookup by path and directory listing.
use vstd::prelude::*;
use vstd::string::StringSliceAdditionalSpecFns;
use vstd::utf8::valid_utf8;
use crate::bytes::{bytes_eq, starts_with, copy_range, append_bytes, is_valid_utf8};

verus! {

/// Longest directory path kept when listing (the `/` is appended after it).
pub const MAX_LIST_PREFIX: usize = 126;
/// The text of `/hello.txt`.
pub const HELLO_TXT: &'static str = "hello.txt from initrd/TarFS";

/// One file: its absolute path and its contents.
pub struct FileEntry {
    pub path: Vec<u8>,
    pub data: Vec<u8>,
}

/// The file table, searched in order.
pub struct Vfs {
    pub files: Vec<FileEntry>,
}

/// Paths are ASCII without NUL bytes.
pub open spec fn path_ok(p: Seq<u8>) -> bool {
    forall|j: int| 0 <= j < p.len() ==> 0 < #[trigger] p[j] < 128
}

impl Vfs {
    pub open spec fn wf(&self) -> bool {
        forall|i: int| 0 <= i < self.files@.len() ==> path_ok(#[trigger] self.files@[i].path@)
    }
}

impl Vfs {
    /// The boot file table: `/hello.txt` and the programs under `/bin`,
    /// in that order.
    pub fn standard(
        init: Vec<u8>,
        echo: Vec<u8>,
        env: Vec<u8>,
        ls: Vec<u8>,
        cat: Vec<u8>,
        tee: Vec<u8>,
        sed: Vec<u8>,
    ) -> (v: Self)
        ensures
            v.wf(),
            v.files@.len() == 8,
            v.files@[0].path@ == "/hello.txt".spec_bytes(),
            v.files@[0].data@ == HELLO_TXT.spec_bytes(),
            v.files@[1].path@ == "/bin/init".spec_bytes(),
            v.files@[1].data@ == init@,
            v.files@[2].path@ == "/bin/echo".spec_bytes(),
            v.files@[2].data@ == echo@,
            v.files@[3].path@ == "/bin/env".spec_bytes(),
            v.files@[3].data@ == env@,
            v.files@[4].path@ == "/bin/ls".spec_bytes(),
            v.files@[4].data@ == ls@,
            v.files@[5].path@ == "/bin/cat".spec_bytes(),
            v.files@[5].data@ == cat@,
            v.files@[6].path@ == "/bin/tee".spec_bytes(),
            v.files@[6].data@ == tee@,
            v.files@[7].path@ == "/bin/sed".spec_bytes(),
            v.files@[7].data@ == sed@,
    {
        proof {
            reveal_strlit("/hello.txt");
            reveal_strlit("/bin/init");
            reveal_strlit("/bin/echo");
            reveal_strlit("/bin/env");
            reveal_strlit("/bin/ls");
            reveal_strlit("/bin/cat");
            reveal_strlit("/bin/tee");
            reveal_strlit("/bin/sed");
        }
        let hello = HELLO_TXT.as_bytes();
        let mut files: Vec<FileEntry> = Vec::new();
        files.push(FileEntry { path: str_bytes("/hello.txt"), data: copy_range(hello, 0, hello.len()) });
        files.push(FileEntry { path: str_bytes("/bin/init"), data: init });
        files.push(FileEntry { path: str_bytes("/bin/echo"), data: echo });
        files.push(FileEntry { path: str_bytes("/bin/env"), data: env });
        files.push(FileEntry { path: str_bytes("/bin/ls"), data: ls });
        files.push(FileEntry { path: str_bytes("/bin/cat"), data: cat });
        files.push(FileEntry { path: str_bytes("/bin/tee"), data: tee });
        files.push(FileEntry { path: str_bytes("/bin/sed"), data: sed });
        assert(hello@.subrange(0, hello@.len() as int) =~= hello@);
        let v = Vfs { files };
        proof {
            lemma_literal_path("/hello.txt");
            lemma_literal_path("/bin/init");
            lemma_literal_path("/bin/echo");
            lemma_literal_path("/bin/env");
            lemma_literal_path("/bin/ls");
            lemma_literal_path("/bin/cat");
            lemma_literal_path("/bin/tee");
            lemma_literal_path("/bin/sed");
        }
        assert forall|i: int| 0 <= i < v.files@.len() implies path_ok(#[trigger] v.files@[i].path@) by {}
        v
    }
}

proof fn lemma_literal_path(s: &str)
    requires
        forall|i: int| 0 <= i < s@.len() ==> '\0' < #[trigger] s@[i] <= '\u{7f}',
    ensures
        path_ok(s.spec_bytes()),
{
    assert(vstd::string::is_ascii(s));
    vstd::string::is_ascii_spec_bytes(s);
}

/// A fresh vector holding the bytes of `s`.
fn str_bytes(s: &str) -> (v: Vec<u8>)
    ensures
        v@ == s.spec_bytes(),
{
    let b = s.as_bytes();
    let v = copy_range(b, 0, b.len());
    assert(b@.subrange(0, b@.len() as int) =~= b@);
    v
}

/// The index of the first file at or after `i` whose path is `p`.
pub open spec fn spec_find_file(files: Seq<FileEntry>, p: Seq<u8>, i: nat) -> Option<int>
    decreases files.len() - i,
{
    if i >= files.len() {
        None
    } else if files[i as int].path@ == p {
        Some(i as int)
    } else {
        spec_find_file(files, p, i + 1)
    }
}

/// The log line of file-system start-up.
pub fn init() -> (r: &'static str)
    ensures
        r == "[ok] vfs initialized",
{
    "[ok] vfs initialized"
}

/// The contents of the first file whose path is `path`.
pub fn read_file<'a>(vfs: &'a Vfs, path: &str) -> (r: Option<&'a [u8]>)
    ensures
        match spec_find_file(vfs.files@, path.spec_bytes(), 0) {
            Some(i) => r matches Some(d) && d@ == vfs.files@[i].data@,
            None => r is None,
        },
{
    let p = path.as_bytes();
    let mut i: usize = 0;
    while i < vfs.files.len()
        invariant
            i <= vfs.files@.len(),
            p@ == path.spec_bytes(),
            spec_find_file(vfs.files@, p@, 0) == spec_find_file(vfs.files@, p@, i as nat),
        decreases vfs.files@.len() - i,
    {
        if bytes_eq(vfs.files[i].path.as_slice(), p) {
            return Some(vfs.files[i].data.as_slice());
        }
        i = i + 1;
    }
    None
}

/// The names of a listing, each followed by a NUL byte.
pub open spec fn spec_join0(names: Seq<Seq<u8>>) -> Seq<u8>
    decreases names.len(),
{
    if names.len() == 0 {
        Seq::empty()
    } else {
        spec_join0(names.drop_last()) + names.last() + seq![0u8]
    }
}

/// The directory prefix that `path` is listed under (the path and a `/`).
pub open spec fn spec_dir_prefix(path: Seq<u8>) -> Seq<u8> {
    if path == seq![47u8] {
        seq![47u8]
    } else if path.len() <= MAX_LIST_PREFIX {
        path.push(47u8)
    } else {
        path.subrange(0, MAX_LIST_PREFIX as int).push(47u8)
    }
}

/// The prefix that entries are matched against: the directory prefix, or
/// `/` when the truncated prefix is not valid UTF-8.
pub open spec fn spec_match_prefix(path: Seq<u8>) -> Seq<u8> {
    if valid_utf8(spec_dir_prefix(path)) {
        spec_dir_prefix(path)
    } else {
        seq![47u8]
    }
}

/// The index of the first `/` in `s` at or after `i` (or the length of `s`).
pub open spec fn spec_slash_index(s: Seq<u8>, i: nat) -> nat
    decreases s.len() - i,
{
    if i >= s.len() {
        s.len()
    } else if s[i as int] == 47 {
        i
    } else {
        spec_slash_index(s, i + 1)
    }
}

/// The first `/`-separated component of `s`.
pub open spec fn spec_first_component(s: Seq<u8>) -> Seq<u8> {
    s.subrange(0, spec_slash_index(s, 0) as int)
}

pub open spec fn spec_starts_with(s: Seq<u8>, prefix: Seq<u8>) -> bool {
    prefix.len() <= s.len() && s.subrange(0, prefix.len() as int) == prefix
}

/// Listing `path` cuts every matching path after the directory prefix,
/// which needs each such path to be at least as long as that prefix (a
/// shorter one stops the kernel).
pub open spec fn spec_list_in_bounds(files: Seq<FileEntry>, path: Seq<u8>) -> bool {
    forall|i: int|
        0 <= i < files.len() && spec_starts_with(files[i].path@, spec_match_prefix(path))
            ==> spec_dir_prefix(path).len() <= (#[trigger] files[i]).path@.len()
}

/// The names that listing `path` into a buffer of `cap` bytes gives, after
/// the first `n` files: each direct child component once, in table order,
/// as long as it fits.
pub open spec fn spec_list_names(files: Seq<FileEntry>, path: Seq<u8>, cap: int, n: nat) -> Seq<
    Seq<u8>,
>
    decreases n,
{
    if n == 0 {
        Seq::empty()
    } else {
        let prev = spec_list_names(files, path, cap, (n - 1) as nat);
        let p = files[n - 1].path@;
        if spec_starts_with(p, spec_match_prefix(path)) {
            let comp = spec_first_component(p.subrange(spec_dir_prefix(path).len() as int, p.len() as int));
            if comp.len() > 0 && !prev.contains(comp) && spec_join0(prev).len() + comp.len() + 1
                <= cap {
                prev.push(comp)
            } else {
                prev
            }
        } else {
            prev
        }
    }
}

pub open spec fn names_ok(names: Seq<Seq<u8>>) -> bool {
    forall|k: int|
        0 <= k < names.len() ==> (#[trigger] names[k]).len() > 0 && forall|t: int|
            0 <= t < names[k].len() ==> names[k][t] != 0
}

proof fn lemma_join0_prefix(names: Seq<Seq<u8>>, m: int)
    requires
        0 <= m <= names.len(),
    ensures
        spec_join0(names.take(m)).len() <= spec_join0(names).len(),
        spec_join0(names).subrange(0, spec_join0(names.take(m)).len() as int) == spec_join0(
            names.take(m),
        ),
    decreases names.len(),
{
    if m == names.len() {
        assert(names.take(m) =~= names);
        assert(spec_join0(names).subrange(0, spec_join0(names).len() as int) =~= spec_join0(names));
    } else {
        let d = names.drop_last();
        assert(names.take(m) =~= d.take(m));
        lemma_join0_prefix(d, m);
        let a = spec_join0(d.take(m));
        assert(spec_join0(names) == spec_join0(d) + names.last() + seq![0u8]);
        assert(spec_join0(names).subrange(0, a.len() as int) =~= spec_join0(d).subrange(
            0,
            a.len() as int,
        ));
    }
}

proof fn lemma_join0_at(names: Seq<Seq<u8>>, k: int)
    requires
        0 <= k < names.len(),
    ensures
        ({
            let a = spec_join0(names.take(k)).len() as int;
            let n = names[k].len() as int;
            &&& spec_join0(names.take(k + 1)).len() == a + n + 1
            &&& a + n < spec_join0(names).len()
            &&& spec_join0(names).subrange(a, a + n) == names[k]
            &&& spec_join0(names)[a + n] == 0
        }),
{
    let t = names.take(k + 1);
    assert(t.drop_last() =~= names.take(k));
    assert(t.last() == names[k]);
    lemma_join0_prefix(names, k + 1);
    let a = spec_join0(names.take(k)).len() as int;
    let n = names[k].len() as int;
    let j = spec_join0(names);
    assert(spec_join0(t) =~= spec_join0(names.take(k)) + names[k] + seq![0u8]);
    assert(j.subrange(0, a + n + 1) == spec_join0(t));
    assert(j.subrange(a, a + n) =~= spec_join0(t).subrange(a, a + n));
    assert(j[a + n] == j.subrange(0, a + n + 1)[a + n]);
}

proof fn lemma_join0_push(names: Seq<Seq<u8>>, c: Seq<u8>)
    ensures
        spec_join0(names.push(c)) == spec_join0(names) + c + seq![0u8],
{
    assert(names.push(c).drop_last() =~= names);
}

proof fn lemma_names_ok_distinct(files: Seq<FileEntry>, path: Seq<u8>, cap: int, n: nat)
    requires
        n <= files.len(),
        spec_list_in_bounds(files, path),
        0 <= cap,
        forall|i: int| 0 <= i < files.len() ==> path_ok(#[trigger] files[i].path@),
    ensures
        names_ok(spec_list_names(files, path, cap, n)),
        spec_list_names(files, path, cap, n).no_duplicates(),
        spec_join0(spec_list_names(files, path, cap, n)).len() <= cap,
    decreases n,
{
    if n > 0 {
        lemma_names_ok_distinct(files, path, cap, (n - 1) as nat);
        let prev = spec_list_names(files, path, cap, (n - 1) as nat);
        let p = files[n - 1].path@;
        assert(path_ok(p));
        if spec_starts_with(p, spec_match_prefix(path)) {
            let start = spec_dir_prefix(path).len() as int;
            let rest = p.subrange(start, p.len() as int);
            let comp = spec_first_component(rest);
            lemma_slash_index_bound(rest, 0);
            if comp.len() > 0 && !prev.contains(comp) && spec_join0(prev).len() + comp.len() + 1
                <= cap {
                let cur = prev.push(comp);
                assert forall|k: int| 0 <= k < cur.len() implies (#[trigger] cur[k]).len() > 0
                    && forall|t: int| 0 <= t < cur[k].len() ==> cur[k][t] != 0 by {
                    if k == prev.len() {
                        assert(start <= p.len());
                        assert forall|t: int| 0 <= t < cur[k].len() implies cur[k][t] != 0 by {
                            assert(comp[t] == rest[t]);
                            assert(rest[t] == p[start + t]);
                        }
                    } else {
                        assert(cur[k] == prev[k]);
                    }
                }
                assert forall|a: int, b: int| 0 <= a < cur.len() && 0 <= b < cur.len() && a != b
                    implies cur[a] != cur[b] by {
                    if a == prev.len() {
                        assert(cur[b] == prev[b]);
                        if cur[a] == cur[b] {
                            assert(prev.contains(comp));
                        }
                    } else if b == prev.len() {
                        assert(cur[a] == prev[a]);
                        if cur[a] == cur[b] {
                            assert(prev.contains(comp));
                        }
                    } else {
                        assert(cur[a] == prev[a] && cur[b] == prev[b]);
                    }
                }
                lemma_join0_push(prev, comp);
            }
        }
    }
}

proof fn lemma_slash_index_bound(s: Seq<u8>, i: nat)
    ensures
        spec_slash_index(s, i) <= s.len(),
        i <= s.len() ==> i <= spec_slash_index(s, i),
        forall|j: int| i <= j < spec_slash_index(s, i) ==> s[j] != 47,
    decreases s.len() - i,
{
    if i < s.len() && s[i as int] != 47 {
        lemma_slash_index_bound(s, i + 1);
    }
}

/// The index of the first `/` in `s` at or after `from` (or `s.len()`).
fn slash_index(s: &[u8], from: usize) -> (r: usize)
    requires
        from <= s@.len(),
    ensures
        r == spec_slash_index(s@, from as nat),
{
    let mut i = from;
    while i < s.len()
        invariant
            from <= i <= s@.len(),
            spec_slash_index(s@, from as nat) == spec_slash_index(s@, i as nat),
        decreases s@.len() - i,
    {
        if s[i] == 0x2fu8 {
            return i;
        }
        i = i + 1;
    }
    i
}

/// Whether `a[start..start + len]` equals `b`.
fn range_eq(a: &[u8], start: usize, len: usize, b: &[u8]) -> (r: bool)
    requires
        start + len <= a@.len(),
    ensures
        r == (a@.subrange(start as int, start + len) == b@),
{
    if len != b.len() {
        return false;
    }
    let alen = a.len();
    let mut i: usize = 0;
    while i < len
        invariant
            alen == a@.len(),
            i <= len,
            len == b@.len(),
            start + len <= a@.len(),
            forall|j: int| 0 <= j < i ==> a@[start + j] == b@[j],
        decreases len - i,
    {
        if a[start + i] != b[i] {
            assert(a@.subrange(start as int, start + len)[i as int] != b@[i as int]);
            return false;
        }
        i = i + 1;
    }
    assert(a@.subrange(start as int, start + len) =~= b@);
    true
}

/// Whether the NUL-terminated names in `out` (which spell `names`) include `comp`.
fn already_listed(out: &Vec<u8>, comp: &[u8], Ghost(names): Ghost<Seq<Seq<u8>>>) -> (r: bool)
    requires
        out@ == spec_join0(names),
        names_ok(names),
    ensures
        r == names.contains(comp@),
{
    let offset = out.len();
    let mut check: usize = 0;
    let ghost mut k: int = 0;
    while check < offset
        invariant
            0 <= k <= names.len(),
            check == spec_join0(names.take(k)).len(),
            offset == out@.len(),
            out@ == spec_join0(names),
            names_ok(names),
            forall|j: int| 0 <= j < k ==> names[j] != comp@,
        decreases offset - check,
    {
        proof {
            if k == names.len() {
                assert(names.take(k) =~= names);
            }
            lemma_join0_at(names, k);
        }
        let ghost nm = names[k];
        let mut len: usize = 0;
        while check + len < offset && out[check + len] != 0
            invariant
                len <= nm.len(),
                check + nm.len() < offset,
                out@.subrange(check as int, check + nm.len()) == nm,
                out@[check + nm.len()] == 0,
                offset == out@.len(),
                forall|t: int| 0 <= t < nm.len() ==> nm[t] != 0,
            decreases nm.len() - len,
        {
            proof {
                if len == nm.len() {
                    assert(false);
                }
                assert(out@[check + len] == out@.subrange(check as int, check + nm.len())[len as int]);
            }
            len = len + 1;
        }
        proof {
            if len < nm.len() {
                assert(out@[check + len] == out@.subrange(check as int, check + nm.len())[len as int]);
            }
        }
        if len == comp.len() && range_eq(out.as_slice(), check, len, comp) {
            return true;
        }
        check = check + len + 1;
        proof {
            k = k + 1;
        }
    }
    proof {
        if k < names.len() {
            lemma_join0_at(names, k);
        }
        assert(k == names.len());
        assert forall|j: int| 0 <= j < names.len() implies names[j] != comp@ by {}
    }
    false
}

/// Lists the direct children of directory `path` into at most `cap` bytes:
/// each child name once, followed by a NUL byte; names that would not fit
/// are left out.
pub fn list_dir(vfs: &Vfs, path: &str, cap: usize) -> (out: Vec<u8>)
    requires
        vfs.wf(),
        spec_list_in_bounds(vfs.files@, path.spec_bytes()),
    ensures
        out@ == spec_join0(
            spec_list_names(vfs.files@, path.spec_bytes(), cap as int, vfs.files@.len()),
        ),
        out@.len() <= cap,
        spec_list_names(vfs.files@, path.spec_bytes(), cap as int, vfs.files@.len()).no_duplicates(),
{
    let pb = path.as_bytes();
    let ghost ps = pb@;
    let mut prefix: Vec<u8> = Vec::new();
    if pb.len() == 1 && pb[0] == 0x2fu8 {
        prefix.push(0x2fu8);
        assert(ps =~= seq![47u8]);
    } else {
        let len = if pb.len() < MAX_LIST_PREFIX {
            pb.len()
        } else {
            MAX_LIST_PREFIX
        };
        prefix = copy_range(pb, 0, len);
        prefix.push(0x2fu8);
        assert(ps.subrange(0, ps.len() as int) =~= ps);
    }
    assert(prefix@ == spec_dir_prefix(ps));
    let prefix_len = prefix.len();
    let matcher: Vec<u8> = if is_valid_utf8(prefix.as_slice()) {
        prefix
    } else {
        let mut m: Vec<u8> = Vec::new();
        m.push(0x2fu8);
        m
    };
    assert(matcher@ == spec_match_prefix(ps));
    let mut out: Vec<u8> = Vec::new();
    let ghost mut names: Seq<Seq<u8>> = Seq::empty();
    let mut i: usize = 0;
    proof {
        lemma_names_ok_distinct(vfs.files@, ps, cap as int, 0);
    }
    while i < vfs.files.len()
        invariant
            i <= vfs.files@.len(),
            vfs.wf(),
            spec_list_in_bounds(vfs.files@, ps),
            ps == path.spec_bytes(),
            matcher@ == spec_match_prefix(ps),
            prefix_len == spec_dir_prefix(ps).len(),
            names == spec_list_names(vfs.files@, ps, cap as int, i as nat),
            names_ok(names),
            out@ == spec_join0(names),
            out@.len() <= cap,
        decreases vfs.files@.len() - i,
    {
        let ghost prev = names;
        let p = vfs.files[i].path.as_slice();
        if starts_with(p, matcher.as_slice()) {
            proof {
                assert(vfs.files@[i as int].path@ == p@);
                assert(spec_starts_with(vfs.files@[i as int].path@, spec_match_prefix(ps)));
                assert(prefix_len <= p@.len());
                lemma_slash_index_bound(p@, prefix_len as nat);
            }
            let end = slash_index(p, prefix_len);
            let comp = copy_range(p, prefix_len, end);
            proof {
                let rest = p@.subrange(prefix_len as int, p@.len() as int);
                lemma_slash_shift(p@, prefix_len as int, prefix_len as int);
                lemma_slash_index_bound(rest, 0);
                assert(comp@ =~= spec_first_component(rest));
            }
            if comp.len() > 0 && !already_listed(&out, comp.as_slice(), Ghost(names)) {
                if out.len() <= cap && comp.len() < cap - out.len() {
                    append_bytes(&mut out, comp.as_slice());
                    out.push(0);
                    proof {
                        lemma_join0_push(names, comp@);
                        names = names.push(comp@);
                    }
                }
            }
        }
        i = i + 1;
        proof {
            lemma_names_ok_distinct(vfs.files@, ps, cap as int, i as nat);
        }
    }
    proof {
        lemma_names_ok_distinct(vfs.files@, ps, cap as int, vfs.files@.len());
    }
    out
}

proof fn lemma_slash_shift(p: Seq<u8>, start: int, j: int)
    requires
        0 <= start <= j <= p.len(),
    ensures
        spec_slash_index(p, j as nat) == start + spec_slash_index(
            p.subrange(start, p.len() as int),
            (j - start) as nat,
        ),
    decreases p.len() - j,
{
    if j < p.len() {
        lemma_slash_shift(p, start, j + 1);
        assert(p.subrange(start, p.len() as int)[j - start] == p[j]);
    }
}


/// Whether listing `path` stays in bounds (see `spec_list_in_bounds`).
pub fn list_in_bounds(vfs: &Vfs, path: &str) -> (r: bool)
    ensures
        r == spec_list_in_bounds(vfs.files@, path.spec_bytes()),
{
    let pb = path.as_bytes();
    let ghost ps = pb@;
    let mut prefix: Vec<u8> = Vec::new();
    if pb.len() == 1 && pb[0] == 0x2fu8 {
        prefix.push(0x2fu8);
        assert(ps =~= seq![47u8]);
    } else {
        let len = if pb.len() < MAX_LIST_PREFIX {
            pb.len()
        } else {
            MAX_LIST_PREFIX
        };
        prefix = copy_range(pb, 0, len);
        prefix.push(0x2fu8);
        assert(ps.subrange(0, ps.len() as int) =~= ps);
    }
    assert(prefix@ == spec_dir_prefix(ps));
    let prefix_len = prefix.len();
    let matcher: Vec<u8> = if is_valid_utf8(prefix.as_slice()) {
        prefix
    } else {
        let mut m: Vec<u8> = Vec::new();
        m.push(0x2fu8);
        m
    };
    assert(matcher@ == spec_match_prefix(ps));
    let mut i: usize = 0;
    while i < vfs.files.len()
        invariant
            i <= vfs.files@.len(),
            ps == path.spec_bytes(),
            matcher@ == spec_match_prefix(ps),
            prefix_len == spec_dir_prefix(ps).len(),
            forall|j: int|
                0 <= j < i && spec_starts_with(vfs.files@[j].path@, spec_match_prefix(ps))
                    ==> spec_dir_prefix(ps).len() <= (#[trigger] vfs.files@[j]).path@.len(),
        decreases vfs.files@.len() - i,
    {
        let p = vfs.files[i].path.as_slice();
        if starts_with(p, matcher.as_slice()) && p.len() < prefix_len {
            assert(spec_starts_with(vfs.files@[i as int].path@, spec_match_prefix(ps)));
            return false;
        }
        i = i + 1;
    }
    true
}

/// The contents of the file at path `p`, if there is one.
pub open spec fn spec_lookup(files: Seq<FileEntry>, p: Seq<u8>) -> Option<Seq<u8>> {
    match spec_find_file(files, p, 0) {
        Some(i) => Some(files[i].data@),
        None => None,
    }
}

/// The first `cap` bytes (or fewer) of the file at `path`.
pub fn read_file_bytes(vfs: &Vfs, path: &str, cap: usize) -> (r: Option<Vec<u8>>)
    ensures
        match spec_lookup(vfs.files@, path.spec_bytes()) {
            Some(d) => r matches Some(v) && v@ == d.subrange(0, if d.len() < cap { d.len() as int } else { cap as int }),
            None => r is None,
        },
{
    match read_file(vfs, path) {
        Some(d) => {
            let n = if d.len() < cap {
                d.len()
            } else {
                cap
            };
            Some(copy_range(d, 0, n))
        },
        None => None,
    }
}

/// Paths that can be written: non-empty, ASCII, without NUL bytes.
pub open spec fn spec_writable_path(p: Seq<u8>) -> bool {
    p.len() > 0 && path_ok(p)
}

proof fn lemma_find_same_paths(a: Seq<FileEntry>, b: Seq<FileEntry>, q: Seq<u8>, i: nat)
    requires
        a.len() == b.len(),
        forall|k: int| 0 <= k < a.len() ==> (#[trigger] a[k]).path@ == b[k].path@,
    ensures
        spec_find_file(a, q, i) == spec_find_file(b, q, i),
    decreases a.len() - i,
{
    if i < a.len() {
        lemma_find_same_paths(a, b, q, i + 1);
    }
}

proof fn lemma_find_push(a: Seq<FileEntry>, x: FileEntry, q: Seq<u8>, i: nat)
    requires
        i <= a.len(),
    ensures
        spec_find_file(a.push(x), q, i) == match spec_find_file(a, q, i) {
            Some(j) => Some(j),
            None => if x.path@ == q {
                Some(a.len() as int)
            } else {
                None
            },
        },
    decreases a.len() - i,
{
    if i < a.len() {
        assert(a.push(x)[i as int] == a[i as int]);
        lemma_find_push(a, x, q, i + 1);
    } else {
        assert(a.push(x)[i as int] == x);
        assert(spec_find_file(a.push(x), q, i + 1) is None);
    }
}

proof fn lemma_find_found(a: Seq<FileEntry>, q: Seq<u8>, i: nat)
    ensures
        spec_find_file(a, q, i) matches Some(j) ==> i <= j < a.len() && a[j].path@ == q,
    decreases a.len() - i,
{
    if i < a.len() {
        lemma_find_found(a, q, i + 1);
    }
}

/// Writes `data` as the contents of the file at `path`: the first file with
/// that path is overwritten, or a new file is added at the end. Fails (and
/// changes nothing) when the path cannot name a file.
pub fn write_file(vfs: &mut Vfs, path: &str, data: &[u8]) -> (r: bool)
    requires
        old(vfs).wf(),
    ensures
        final(vfs).wf(),
        r == spec_writable_path(path.spec_bytes()),
        !r ==> final(vfs).files@ == old(vfs).files@,
        r ==> forall|q: Seq<u8>|
            #[trigger] spec_lookup(final(vfs).files@, q) == if q == path.spec_bytes() {
                Some(data@)
            } else {
                spec_lookup(old(vfs).files@, q)
            },
{
    let p = path.as_bytes();
    if p.len() == 0 {
        return false;
    }
    let mut k: usize = 0;
    while k < p.len()
        invariant
            k <= p@.len(),
            p@ == path.spec_bytes(),
            vfs.wf(),
            forall|j: int| 0 <= j < k ==> 0 < #[trigger] p@[j] < 128,
        decreases p@.len() - k,
    {
        if p[k] == 0 || p[k] >= 128 {
            assert(!path_ok(p@));
            return false;
        }
        k = k + 1;
    }
    assert(path_ok(p@));
    let ghost old_files = vfs.files@;
    let mut i: usize = 0;
    let mut found = false;
    while i < vfs.files.len() && !found
        invariant
            i <= vfs.files@.len(),
            vfs.files@ == old_files,
            p@ == path.spec_bytes(),
            found ==> i < vfs.files@.len() && spec_find_file(old_files, p@, 0) == Some(i as int),
            !found ==> spec_find_file(old_files, p@, 0) == spec_find_file(old_files, p@, i as nat),
        decreases vfs.files@.len() - i, if found { 0int } else { 1int },
    {
        if bytes_eq(vfs.files[i].path.as_slice(), p) {
            found = true;
        } else {
            i = i + 1;
        }
    }
    let entry = FileEntry { path: copy_range(p, 0, p.len()), data: copy_range(data, 0, data.len()) };
    assert(p@.subrange(0, p@.len() as int) =~= p@);
    assert(data@.subrange(0, data@.len() as int) =~= data@);
    if found {
        proof {
            lemma_find_found(old_files, p@, 0);
        }
        vfs.files.set(i, entry);
        proof {
            let nf = vfs.files@;
            assert forall|j: int| 0 <= j < old_files.len() implies (#[trigger] old_files[j]).path@
                == nf[j].path@ by {
                if j != i {
                    assert(nf[j] == old_files[j]);
                }
            }
            assert(vfs.wf()) by {
                assert forall|j: int| 0 <= j < nf.len() implies path_ok(#[trigger] nf[j].path@) by {
                    assert(nf[j].path@ == old_files[j].path@);
                }
            }
            lemma_find_same_paths(old_files, nf, p@, 0);
            assert forall|q: Seq<u8>|
                #[trigger] spec_lookup(nf, q) == if q == p@ {
                    Some(data@)
                } else {
                    spec_lookup(old_files, q)
                } by {
                lemma_find_same_paths(old_files, nf, q, 0);
                lemma_find_found(old_files, q, 0);
            }
        }
    } else {
        assert(spec_find_file(old_files, p@, 0) is None);
        vfs.files.push(entry);
        proof {
            let nf = vfs.files@;
            assert(nf == old_files.push(entry));
            assert(vfs.wf()) by {
                assert forall|j: int| 0 <= j < nf.len() implies path_ok(#[trigger] nf[j].path@) by {
                    if j < old_files.len() {
                        assert(nf[j] == old_files[j]);
                    }
                }
            }
            assert forall|q: Seq<u8>|
                #[trigger] spec_lookup(nf, q) == if q == p@ {
                    Some(data@)
                } else {
                    spec_lookup(old_files, q)
                } by {
                lemma_find_push(old_files, entry, q, 0);
                lemma_find_found(old_files, q, 0);
            }
        }
    }
    true
}

/// A read of a path gives back what the last write to it wrote, and a write
/// leaves every other path as it was.
pub proof fn lemma_read_after_write(
    before: Seq<FileEntry>,
    after: Seq<FileEntry>,
    written: Seq<u8>,
    data: Seq<u8>,
    other: Seq<u8>,
)
    requires
        forall|q: Seq<u8>|
            #[trigger] spec_lookup(after, q) == if q == written {
                Some(data)
            } else {
                spec_lookup(before, q)
            },
        other != written,
    ensures
        spec_lookup(after, written) == Some(data),
        spec_lookup(after, other) == spec_lookup(before, other),
{
    assert(spec_lookup(after, written) == Some(data));
    assert(spec_lookup(after, other) == spec_lookup(before, other));
}

} // verus!
