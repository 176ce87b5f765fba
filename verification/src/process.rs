//! Processes: the slot and record table, redirected standard I/O, and the
//! decisions of running an executable from the file table.
use vstd::prelude::*;
use vstd::string::StringSliceAdditionalSpecFns;
use crate::bytes::{bytes_eq, copy_range};
use crate::elf::{
    AppSlot, ElfError, ExecImage, plan_exec_in_slot, probe_elf_for_slot, spec_validate_elf,
};
use crate::vfs::{Vfs, read_file, spec_find_file};
use crate::paging::{PAGE_SIZE, pages_in_range, spec_page_start, spec_pages};

verus! {

pub const PROCESS_SLOT_BASE: u64 = 0x0000_5555_0000_0000;
pub const PROCESS_SLOT_SIZE: u64 = 0x0010_0000;
pub const MAX_PROCESS_SLOTS: usize = 7;
pub const MAX_PROCESSES: usize = 16;
pub const MAX_IO_STDIN: usize = 4096;
pub const MAX_IO_STDOUT: usize = 4096;

#[derive(Clone, Copy, Debug, PartialEq, Eq, Structural)]
pub enum ProcessState {
    Empty,
    Running,
}

#[derive(Clone, Copy, Debug, PartialEq, Eq, Structural)]
pub struct ProcessRecord {
    pub pid: u64,
    pub slot_idx: usize,
    pub state: ProcessState,
    pub exit_code: u64,
}

pub open spec fn spec_empty_record() -> ProcessRecord {
    ProcessRecord { pid: 0, slot_idx: 0, state: ProcessState::Empty, exit_code: 0 }
}

impl ProcessRecord {
    /// An unused record.
    pub fn empty() -> (r: Self)
        ensures
            r == spec_empty_record(),
    {
        ProcessRecord { pid: 0, slot_idx: 0, state: ProcessState::Empty, exit_code: 0 }
    }
}

/// The abstract state of the process table.
pub struct ProcTable {
    pub next_pid: u64,
    pub slots: Seq<bool>,
    pub records: Seq<ProcessRecord>,
}

/// Which slots run a program, and the records of running programs.
pub struct ProcessManager {
    pub next_pid: u64,
    pub slots_in_use: Vec<bool>,
    pub records: Vec<ProcessRecord>,
}

impl ProcessManager {
    pub open spec fn view(&self) -> ProcTable {
        ProcTable { next_pid: self.next_pid, slots: self.slots_in_use@, records: self.records@ }
    }
}

pub open spec fn is_running(r: ProcessRecord) -> bool {
    r.state == ProcessState::Running
}

/// The table's invariant: a slot is marked in use exactly when one running
/// record holds it; unused records are blank; pids handed out so far are
/// below `next_pid` and distinct (once `next_pid` saturates, it repeats).
pub open spec fn table_wf(t: ProcTable) -> bool {
    &&& t.slots.len() == MAX_PROCESS_SLOTS
    &&& t.records.len() == MAX_PROCESSES
    &&& forall|i: int|
        0 <= i < t.records.len() && !is_running(#[trigger] t.records[i]) ==> t.records[i]
            == spec_empty_record()
    &&& forall|i: int|
        0 <= i < t.records.len() && is_running(#[trigger] t.records[i]) ==> t.records[i].slot_idx
            < MAX_PROCESS_SLOTS && t.slots[t.records[i].slot_idx as int]
    &&& forall|i: int, j: int|
        0 <= i < t.records.len() && 0 <= j < t.records.len() && i != j && is_running(
            #[trigger] t.records[i],
        ) && is_running(#[trigger] t.records[j]) ==> t.records[i].slot_idx != t.records[j].slot_idx
    &&& forall|s: int|
        0 <= s < MAX_PROCESS_SLOTS && #[trigger] t.slots[s] ==> exists|i: int|
            0 <= i < t.records.len() && is_running(#[trigger] t.records[i])
                && t.records[i].slot_idx == s
    &&& forall|i: int|
        0 <= i < t.records.len() && is_running(#[trigger] t.records[i]) ==> (t.records[i].pid
            < t.next_pid || t.next_pid == u64::MAX)
    &&& forall|i: int, j: int|
        0 <= i < t.records.len() && 0 <= j < t.records.len() && i != j && is_running(
            #[trigger] t.records[i],
        ) && is_running(#[trigger] t.records[j]) ==> (t.records[i].pid != t.records[j].pid
            || t.records[i].pid == u64::MAX)
}

/// The index of the first unused record at or after `i` (or the length).
pub open spec fn spec_first_empty(recs: Seq<ProcessRecord>, i: nat) -> nat
    decreases recs.len() - i,
{
    if i >= recs.len() {
        recs.len()
    } else if recs[i as int].state == ProcessState::Empty {
        i
    } else {
        spec_first_empty(recs, i + 1)
    }
}

/// The index of the first running record with `pid` at or after `i` (or the length).
pub open spec fn spec_find_running(recs: Seq<ProcessRecord>, pid: u64, i: nat) -> nat
    decreases recs.len() - i,
{
    if i >= recs.len() {
        recs.len()
    } else if recs[i as int].pid == pid && recs[i as int].state == ProcessState::Running {
        i
    } else {
        spec_find_running(recs, pid, i + 1)
    }
}

/// Starting a program in slot `slot`: the table after, and the pid and slot given.
pub open spec fn spec_spawn_slot(t: ProcTable, slot: int) -> (ProcTable, Option<(u64, usize)>) {
    if slot >= MAX_PROCESS_SLOTS || t.slots[slot] {
        (t, None)
    } else {
        let r = spec_first_empty(t.records, 0);
        if r >= MAX_PROCESSES {
            (t, None)
        } else {
            (
                ProcTable {
                    next_pid: if t.next_pid == u64::MAX {
                        u64::MAX
                    } else {
                        (t.next_pid + 1) as u64
                    },
                    slots: t.slots.update(slot, true),
                    records: t.records.update(
                        r as int,
                        ProcessRecord {
                            pid: t.next_pid,
                            slot_idx: slot as usize,
                            state: ProcessState::Running,
                            exit_code: 0,
                        },
                    ),
                },
                Some((t.next_pid, slot as usize)),
            )
        }
    }
}

/// Ending the program with `pid`: its record is cleared and its slot freed.
pub open spec fn spec_finish(t: ProcTable, pid: u64) -> ProcTable {
    let i = spec_find_running(t.records, pid, 0);
    if i >= t.records.len() {
        t
    } else {
        let s = t.records[i as int].slot_idx;
        ProcTable {
            next_pid: t.next_pid,
            slots: if s < MAX_PROCESS_SLOTS {
                t.slots.update(s as int, false)
            } else {
                t.slots
            },
            records: t.records.update(i as int, spec_empty_record()),
        }
    }
}

proof fn lemma_first_empty_props(recs: Seq<ProcessRecord>, i: nat)
    ensures
        spec_first_empty(recs, i) <= recs.len() || i > recs.len(),
        spec_first_empty(recs, i) < recs.len() ==> recs[spec_first_empty(recs, i) as int].state
            == ProcessState::Empty,
        i <= recs.len() ==> i <= spec_first_empty(recs, i),
        forall|j: int|
            i <= j < spec_first_empty(recs, i) ==> recs[j].state != ProcessState::Empty,
    decreases recs.len() - i,
{
    if i < recs.len() && recs[i as int].state != ProcessState::Empty {
        lemma_first_empty_props(recs, i + 1);
    }
}

proof fn lemma_find_running_props(recs: Seq<ProcessRecord>, pid: u64, i: nat)
    ensures
        i <= recs.len() ==> i <= spec_find_running(recs, pid, i) <= recs.len(),
        spec_find_running(recs, pid, i) < recs.len() ==> recs[spec_find_running(
            recs,
            pid,
            i,
        ) as int].pid == pid && is_running(recs[spec_find_running(recs, pid, i) as int]),
        forall|j: int|
            i <= j < spec_find_running(recs, pid, i) ==> !(recs[j].pid == pid && is_running(
                recs[j],
            )),
    decreases recs.len() - i,
{
    if i < recs.len() && !(recs[i as int].pid == pid && is_running(recs[i as int])) {
        lemma_find_running_props(recs, pid, i + 1);
    }
}

/// Starting a program keeps the table's invariant.
pub proof fn lemma_spawn_keeps_wf(t: ProcTable, slot: int)
    requires
        table_wf(t),
        0 <= slot,
    ensures
        table_wf(spec_spawn_slot(t, slot).0),
{
    if !(slot >= MAX_PROCESS_SLOTS || t.slots[slot]) {
        lemma_first_empty_props(t.records, 0);
        let r = spec_first_empty(t.records, 0);
        if r < MAX_PROCESSES {
            let n = spec_spawn_slot(t, slot).0;
            assert forall|s: int| 0 <= s < MAX_PROCESS_SLOTS && #[trigger] n.slots[s] implies exists|
                i: int,
            | 0 <= i < n.records.len() && is_running(#[trigger] n.records[i])
                && n.records[i].slot_idx == s by {
                if s == slot {
                    assert(is_running(n.records[r as int]));
                } else {
                    assert(t.slots[s]);
                    let i = choose|i: int|
                        0 <= i < t.records.len() && is_running(#[trigger] t.records[i])
                            && t.records[i].slot_idx == s;
                    assert(t.records[r as int].state == ProcessState::Empty);
                    assert(i != r);
                    assert(n.records[i] == t.records[i]);
                }
            }
            assert forall|i: int, j: int|
                0 <= i < n.records.len() && 0 <= j < n.records.len() && i != j && is_running(
                    #[trigger] n.records[i],
                ) && is_running(#[trigger] n.records[j]) implies n.records[i].slot_idx
                != n.records[j].slot_idx && (n.records[i].pid != n.records[j].pid
                || n.records[i].pid == u64::MAX) by {
                if i == r {
                    assert(n.records[j] == t.records[j]);
                } else if j == r {
                    assert(n.records[i] == t.records[i]);
                } else {
                    assert(n.records[i] == t.records[i]);
                    assert(n.records[j] == t.records[j]);
                }
            }
        }
    }
}

/// Ending a program keeps the table's invariant.
pub proof fn lemma_finish_keeps_wf(t: ProcTable, pid: u64)
    requires
        table_wf(t),
    ensures
        table_wf(spec_finish(t, pid)),
{
    lemma_find_running_props(t.records, pid, 0);
    let i0 = spec_find_running(t.records, pid, 0);
    if i0 < t.records.len() {
        let n = spec_finish(t, pid);
        let s0 = t.records[i0 as int].slot_idx;
        assert forall|s: int| 0 <= s < MAX_PROCESS_SLOTS && #[trigger] n.slots[s] implies exists|
            i: int,
        | 0 <= i < n.records.len() && is_running(#[trigger] n.records[i])
            && n.records[i].slot_idx == s by {
            assert(s != s0);
            assert(t.slots[s]);
            let i = choose|i: int|
                0 <= i < t.records.len() && is_running(#[trigger] t.records[i])
                    && t.records[i].slot_idx == s;
            assert(i != i0);
            assert(n.records[i] == t.records[i]);
        }
        assert forall|i: int|
            0 <= i < n.records.len() && is_running(#[trigger] n.records[i]) implies n.records[i].slot_idx
            < MAX_PROCESS_SLOTS && n.slots[n.records[i].slot_idx as int] by {
            assert(i != i0);
            assert(n.records[i] == t.records[i]);
        }
        assert forall|i: int, j: int|
            0 <= i < n.records.len() && 0 <= j < n.records.len() && i != j && is_running(
                #[trigger] n.records[i],
            ) && is_running(#[trigger] n.records[j]) implies n.records[i].slot_idx
            != n.records[j].slot_idx && (n.records[i].pid != n.records[j].pid
            || n.records[i].pid == u64::MAX) by {
            assert(n.records[i] == t.records[i]);
            assert(n.records[j] == t.records[j]);
        }
    }
}

/// Ending the program that a start just created gives back the table as it
/// was before the start, but for the pid counter (while pids have not run out).
pub proof fn lemma_finish_undoes_spawn(t: ProcTable, slot: int)
    requires
        table_wf(t),
        0 <= slot,
        t.next_pid < u64::MAX,
        spec_spawn_slot(t, slot).1 is Some,
    ensures
        ({
            let (t1, r) = spec_spawn_slot(t, slot);
            let t2 = spec_finish(t1, r.unwrap().0);
            &&& t2.slots == t.slots
            &&& t2.records == t.records
            &&& t2.next_pid == t.next_pid + 1
        }),
{
    lemma_first_empty_props(t.records, 0);
    let (t1, r) = spec_spawn_slot(t, slot);
    let pid = t.next_pid;
    let k = spec_first_empty(t.records, 0);
    lemma_find_running_props(t1.records, pid, 0);
    let i = spec_find_running(t1.records, pid, 0);
    assert(t1.records[k as int].pid == pid && is_running(t1.records[k as int]));
    if i < k {
        assert(t1.records[i as int] == t.records[i as int]);
        assert(false);
    }
    assert(i == k);
    assert(t.records[k as int] == spec_empty_record());
    assert(!t.slots[slot]);
    assert(t1.records[k as int].slot_idx == slot);
    assert(spec_finish(t1, pid).slots =~= t.slots);
    assert(spec_finish(t1, pid).records =~= t.records);
}

/// Ending a running program, whatever started and ended before it, frees
/// exactly its slot and clears exactly its record (pids being distinct
/// below `u64::MAX`); its slot can then be taken again. Ending a pid that
/// no running record holds changes nothing.
pub proof fn lemma_finish_frees_its_slot(t: ProcTable, pid: u64, k: int)
    requires
        table_wf(t),
        0 <= k < t.records.len(),
        is_running(t.records[k]),
        t.records[k].pid == pid,
        pid != u64::MAX,
    ensures
        ({
            let n = spec_finish(t, pid);
            let s = t.records[k].slot_idx as int;
            &&& table_wf(n)
            &&& !n.slots[s]
            &&& n.records[k] == spec_empty_record()
            &&& forall|j: int| 0 <= j < n.records.len() ==> !(is_running(#[trigger] n.records[j]) && n.records[j].pid == pid)
            &&& forall|q: int| 0 <= q < MAX_PROCESS_SLOTS && q != s ==> #[trigger] n.slots[q] == t.slots[q]
            &&& forall|j: int| 0 <= j < n.records.len() && j != k ==> #[trigger] n.records[j] == t.records[j]
            &&& n.next_pid == t.next_pid
            &&& spec_spawn_slot(n, s).1 is Some
        }),
{
    lemma_finish_keeps_wf(t, pid);
    lemma_find_running_props(t.records, pid, 0);
    let i = spec_find_running(t.records, pid, 0);
    if i > k {
        assert(false);
    }
    if i < k {
        assert(t.records[i as int].pid == pid && is_running(t.records[i as int]));
        assert(false);
    }
    assert(i == k);
    let n = spec_finish(t, pid);
    assert(n.records[k] == spec_empty_record());
    lemma_first_empty_props(n.records, 0);
    if spec_first_empty(n.records, 0) >= MAX_PROCESSES {
        assert(n.records[k].state == ProcessState::Empty);
        assert(false);
    }
}

/// Ending a pid that no running record holds changes nothing.
pub proof fn lemma_finish_unknown_pid(t: ProcTable, pid: u64)
    requires
        forall|j: int| 0 <= j < t.records.len() ==> !(is_running(#[trigger] t.records[j]) && t.records[j].pid == pid),
    ensures
        spec_finish(t, pid) == t,
{
    lemma_find_running_props(t.records, pid, 0);
}

impl ProcessManager {
    /// An empty table; pids start at 1.
    pub fn new() -> (m: Self)
        ensures
            table_wf(m@),
            m@.next_pid == 1,
            forall|s: int| 0 <= s < MAX_PROCESS_SLOTS ==> !#[trigger] m@.slots[s],
            forall|i: int| 0 <= i < MAX_PROCESSES ==> #[trigger] m@.records[i] == spec_empty_record(),
    {
        let mut slots_in_use: Vec<bool> = Vec::new();
        let mut i: usize = 0;
        while i < MAX_PROCESS_SLOTS
            invariant
                i <= MAX_PROCESS_SLOTS,
                slots_in_use@.len() == i,
                forall|s: int| 0 <= s < i ==> !#[trigger] slots_in_use@[s],
            decreases MAX_PROCESS_SLOTS - i,
        {
            slots_in_use.push(false);
            i = i + 1;
        }
        let mut records: Vec<ProcessRecord> = Vec::new();
        let mut j: usize = 0;
        while j < MAX_PROCESSES
            invariant
                j <= MAX_PROCESSES,
                records@.len() == j,
                forall|r: int| 0 <= r < j ==> #[trigger] records@[r] == spec_empty_record(),
            decreases MAX_PROCESSES - j,
        {
            records.push(ProcessRecord::empty());
            j = j + 1;
        }
        ProcessManager { next_pid: 1, slots_in_use, records }
    }

    /// Reserves slot `slot_idx` for a new program, if it is free and a record is free.
    pub fn spawn_slot(&mut self, slot_idx: usize) -> (r: Option<(u64, usize)>)
        requires
            table_wf(old(self)@),
        ensures
            final(self)@ == spec_spawn_slot(old(self)@, slot_idx as int).0,
            r == spec_spawn_slot(old(self)@, slot_idx as int).1,
            table_wf(final(self)@),
    {
        proof {
            lemma_spawn_keeps_wf(self@, slot_idx as int);
            lemma_first_empty_props(self.records@, 0);
        }
        if slot_idx >= MAX_PROCESS_SLOTS || self.slots_in_use[slot_idx] {
            return None;
        }
        let mut rec_idx: usize = 0;
        while rec_idx < MAX_PROCESSES && self.records[rec_idx].state != ProcessState::Empty
            invariant
                rec_idx <= MAX_PROCESSES,
                self@ == old(self)@,
                table_wf(self@),
                table_wf(spec_spawn_slot(old(self)@, slot_idx as int).0),
                slot_idx < MAX_PROCESS_SLOTS,
                !self.slots_in_use@[slot_idx as int],
                self.records@.len() == MAX_PROCESSES,
                spec_first_empty(self.records@, 0) == spec_first_empty(
                    self.records@,
                    rec_idx as nat,
                ),
            decreases MAX_PROCESSES - rec_idx,
        {
            rec_idx = rec_idx + 1;
        }
        if rec_idx == MAX_PROCESSES {
            return None;
        }
        let pid = self.next_pid;
        self.next_pid = self.next_pid.saturating_add(1);
        self.slots_in_use.set(slot_idx, true);
        self.records.set(
            rec_idx,
            ProcessRecord { pid, slot_idx, state: ProcessState::Running, exit_code: 0 },
        );
        Some((pid, slot_idx))
    }

    /// Ends the running program with `pid`, if there is one: its slot is freed.
    pub fn finish(&mut self, pid: u64, exit_code: u64)
        requires
            table_wf(old(self)@),
        ensures
            final(self)@ == spec_finish(old(self)@, pid),
            table_wf(final(self)@),
    {
        proof {
            lemma_finish_keeps_wf(self@, pid);
        }
        let mut i: usize = 0;
        while i < MAX_PROCESSES
            invariant
                i <= MAX_PROCESSES,
                table_wf(self@),
                table_wf(spec_finish(old(self)@, pid)),
                self@ == old(self)@,
                spec_find_running(self.records@, pid, 0) == spec_find_running(
                    self.records@,
                    pid,
                    i as nat,
                ),
            decreases MAX_PROCESSES - i,
        {
            if self.records[i].pid == pid && self.records[i].state == ProcessState::Running {
                let slot_idx = self.records[i].slot_idx;
                let mut rec = self.records[i];
                rec.exit_code = exit_code;
                self.records.set(i, rec);
                if slot_idx < MAX_PROCESS_SLOTS {
                    self.slots_in_use.set(slot_idx, false);
                }
                self.records.set(i, ProcessRecord::empty());
                assert(self.records@ =~= old(self)@.records.update(i as int, spec_empty_record()));
                return ;
            }
            i = i + 1;
        }
    }
}

// ---------------------------------------------------------------------------
// Redirected standard I/O of the running program.

/// What a read of standard input gives.
#[derive(Clone, Copy, Debug, PartialEq, Eq, Structural)]
pub enum StdinByte {
    Byte(u8),
    Eof,
    Unavailable,
}

/// The standard input handed to the running program and the output captured from it.
pub struct IoState {
    pub active: bool,
    pub stdin_enabled: bool,
    pub stdin: Vec<u8>,
    pub stdin_pos: usize,
    pub stdout_capture: bool,
    pub stdout: Vec<u8>,
}

impl IoState {
    pub open spec fn wf(&self) -> bool {
        &&& self.stdin@.len() <= MAX_IO_STDIN
        &&& self.stdin_pos <= self.stdin@.len()
        &&& self.stdout@.len() <= MAX_IO_STDOUT
    }

    /// Nothing redirected.
    pub fn new() -> (io: Self)
        ensures
            io.wf(),
            !io.active,
            !io.stdin_enabled,
            !io.stdout_capture,
            io.stdin@.len() == 0,
            io.stdout@.len() == 0,
            io.stdin_pos == 0,
    {
        IoState {
            active: false,
            stdin_enabled: false,
            stdin: Vec::new(),
            stdin_pos: 0,
            stdout_capture: false,
            stdout: Vec::new(),
        }
    }
}

/// The redirected I/O state as values.
pub struct IoModel {
    pub active: bool,
    pub stdin_enabled: bool,
    pub stdin: Seq<u8>,
    pub stdin_pos: int,
    pub stdout_capture: bool,
    pub stdout: Seq<u8>,
}

impl View for IoState {
    type V = IoModel;

    open spec fn view(&self) -> IoModel {
        IoModel {
            active: self.active,
            stdin_enabled: self.stdin_enabled,
            stdin: self.stdin@,
            stdin_pos: self.stdin_pos as int,
            stdout_capture: self.stdout_capture,
            stdout: self.stdout@,
        }
    }
}

/// One read of standard input: the state after, and what it gives.
pub open spec fn spec_take_stdin(m: IoModel) -> (IoModel, StdinByte) {
    if !m.active || !m.stdin_enabled {
        (m, StdinByte::Unavailable)
    } else if m.stdin_pos >= m.stdin.len() {
        (m, StdinByte::Eof)
    } else {
        (IoModel { stdin_pos: m.stdin_pos + 1, ..m }, StdinByte::Byte(m.stdin[m.stdin_pos]))
    }
}

/// What `n` successive reads of standard input give, and the state after.
pub open spec fn spec_take_stdin_n(m: IoModel, n: nat) -> (IoModel, Seq<StdinByte>)
    decreases n,
{
    if n == 0 {
        (m, Seq::empty())
    } else {
        let (m1, prev) = spec_take_stdin_n(m, (n - 1) as nat);
        let (m2, b) = spec_take_stdin(m1);
        (m2, prev.push(b))
    }
}

/// Successive reads of redirected standard input give its bytes in order
/// from the read position, then end of input on every later read; when
/// input is not redirected, every read is unavailable and changes nothing.
pub proof fn lemma_stdin_reads_in_order(m: IoModel, n: nat)
    requires
        0 <= m.stdin_pos <= m.stdin.len(),
    ensures
        (m.active && m.stdin_enabled) ==> spec_take_stdin_n(m, n).1 == Seq::new(
            n,
            |i: int|
                if m.stdin_pos + i < m.stdin.len() {
                    StdinByte::Byte(m.stdin[m.stdin_pos + i])
                } else {
                    StdinByte::Eof
                },
        ) && spec_take_stdin_n(m, n).0.stdin_pos == min(m.stdin_pos + n, m.stdin.len() as int),
        !(m.active && m.stdin_enabled) ==> spec_take_stdin_n(m, n).1 == Seq::new(
            n,
            |i: int| StdinByte::Unavailable,
        ) && spec_take_stdin_n(m, n).0 == m,
        spec_take_stdin_n(m, n).0.stdin == m.stdin,
        spec_take_stdin_n(m, n).0.active == m.active,
        spec_take_stdin_n(m, n).0.stdin_enabled == m.stdin_enabled,
    decreases n,
{
    if n > 0 {
        lemma_stdin_reads_in_order(m, (n - 1) as nat);
        let (m1, prev) = spec_take_stdin_n(m, (n - 1) as nat);
        let (m2, b) = spec_take_stdin(m1);
        if m.active && m.stdin_enabled {
            assert(spec_take_stdin_n(m, n).1 =~= Seq::new(
                n,
                |i: int|
                    if m.stdin_pos + i < m.stdin.len() {
                        StdinByte::Byte(m.stdin[m.stdin_pos + i])
                    } else {
                        StdinByte::Eof
                    },
            ));
        } else {
            assert(spec_take_stdin_n(m, n).1 =~= Seq::new(n, |i: int| StdinByte::Unavailable));
        }
    }
}

pub open spec fn min(a: int, b: int) -> int {
    if a <= b {
        a
    } else {
        b
    }
}

/// Hands the next byte of redirected standard input to the running program.
pub fn take_stdin_byte(io: &mut IoState) -> (r: StdinByte)
    requires
        old(io).wf(),
    ensures
        final(io).wf(),
        final(io).active == old(io).active,
        final(io).stdin_enabled == old(io).stdin_enabled,
        final(io).stdin@ == old(io).stdin@,
        final(io).stdout_capture == old(io).stdout_capture,
        final(io).stdout@ == old(io).stdout@,
        !old(io).active || !old(io).stdin_enabled ==> r == StdinByte::Unavailable
            && final(io).stdin_pos == old(io).stdin_pos,
        old(io).active && old(io).stdin_enabled && old(io).stdin_pos >= old(io).stdin@.len()
            ==> r == StdinByte::Eof && final(io).stdin_pos == old(io).stdin_pos,
        old(io).active && old(io).stdin_enabled && old(io).stdin_pos < old(io).stdin@.len() ==> r
            == StdinByte::Byte(old(io).stdin@[old(io).stdin_pos as int]) && final(io).stdin_pos
            == old(io).stdin_pos + 1,        final(io)@ == spec_take_stdin(old(io)@).0,
        r == spec_take_stdin(old(io)@).1,
{
    if !io.active || !io.stdin_enabled {
        return StdinByte::Unavailable;
    }
    if io.stdin_pos >= io.stdin.len() {
        return StdinByte::Eof;
    }
    let b = io.stdin[io.stdin_pos];
    io.stdin_pos = io.stdin_pos + 1;
    StdinByte::Byte(b)
}

/// Captures output of the running program; `false` when output is not
/// being captured (or the capture buffer is full) and must go to the console.
pub fn capture_stdout(io: &mut IoState, buf: &[u8]) -> (r: bool)
    requires
        old(io).wf(),
    ensures
        final(io).wf(),
        r == (old(io).active && old(io).stdout_capture && old(io).stdout@.len() < MAX_IO_STDOUT),
        final(io).active == old(io).active,
        final(io).stdin_enabled == old(io).stdin_enabled,
        final(io).stdin@ == old(io).stdin@,
        final(io).stdin_pos == old(io).stdin_pos,
        final(io).stdout_capture == old(io).stdout_capture,
        r ==> final(io).stdout@ == (old(io).stdout@ + buf@).subrange(
            0,
            min(MAX_IO_STDOUT as int, (old(io).stdout@.len() + buf@.len()) as int),
        ),
        !r ==> final(io).stdout@ == old(io).stdout@,
{
    if !io.active || !io.stdout_capture || io.stdout.len() >= MAX_IO_STDOUT {
        return false;
    }
    let remaining = MAX_IO_STDOUT - io.stdout.len();
    let copy_len = if remaining < buf.len() {
        remaining
    } else {
        buf.len()
    };
    let ghost old_out = io.stdout@;
    let mut i: usize = 0;
    while i < copy_len
        invariant
            i <= copy_len,
            io.active == old(io).active,
            io.stdin_enabled == old(io).stdin_enabled,
            io.stdin@ == old(io).stdin@,
            io.stdin_pos == old(io).stdin_pos,
            io.stdout_capture == old(io).stdout_capture,
            old(io).wf(),
            copy_len <= buf@.len(),
            old_out.len() + copy_len <= MAX_IO_STDOUT,
            io.stdout@ == old_out + buf@.subrange(0, i as int),
        decreases copy_len - i,
    {
        io.stdout.push(buf[i]);
        i = i + 1;
        assert(buf@.subrange(0, i as int) =~= buf@.subrange(0, i - 1).push(buf@[i - 1]));
    }
    assert(io.stdout@ =~= (old_out + buf@).subrange(
        0,
        min(MAX_IO_STDOUT as int, (old_out.len() + buf@.len()) as int),
    ));
    true
}

/// Redirects I/O for the next program: `stdin` (its first `MAX_IO_STDIN`
/// bytes) becomes its input, and its output is captured when `capture`.
pub fn begin_io(io: &mut IoState, stdin: Option<&[u8]>, capture: bool)
    ensures
        final(io).wf(),
        final(io).active,
        final(io).stdin_enabled == stdin is Some,
        final(io).stdin_pos == 0,
        final(io).stdout_capture == capture,
        final(io).stdout@.len() == 0,
        match stdin {
            Some(d) => final(io).stdin@ == d@.subrange(0, min(d@.len() as int, MAX_IO_STDIN as int)),
            None => final(io).stdin@.len() == 0,
        },
{
    io.active = true;
    io.stdin_enabled = stdin.is_some();
    io.stdin_pos = 0;
    io.stdout_capture = capture;
    io.stdout = Vec::new();
    io.stdin = match stdin {
        Some(d) => {
            let n = if d.len() < MAX_IO_STDIN {
                d.len()
            } else {
                MAX_IO_STDIN
            };
            copy_range(d, 0, n)
        },
        None => Vec::new(),
    };
}

/// Ends redirection: hands back the first `cap` captured bytes (none when
/// `out_cap` is `None`) and resets the I/O state.
pub fn end_io(io: &mut IoState, out_cap: Option<usize>) -> (out: Vec<u8>)
    requires
        old(io).wf(),
    ensures
        final(io).wf(),
        !final(io).active,
        !final(io).stdin_enabled,
        !final(io).stdout_capture,
        final(io).stdin@.len() == 0,
        final(io).stdin_pos == 0,
        final(io).stdout@.len() == 0,
        match out_cap {
            Some(cap) => out@ == old(io).stdout@.subrange(
                0,
                min(old(io).stdout@.len() as int, cap as int),
            ),
            None => out@.len() == 0,
        },
{
    let out = match out_cap {
        Some(cap) => {
            let n = if io.stdout.len() < cap {
                io.stdout.len()
            } else {
                cap
            };
            copy_range(io.stdout.as_slice(), 0, n)
        },
        None => Vec::new(),
    };
    io.active = false;
    io.stdin_enabled = false;
    io.stdin = Vec::new();
    io.stdin_pos = 0;
    io.stdout_capture = false;
    io.stdout = Vec::new();
    out
}

// ---------------------------------------------------------------------------
// Slots and running executables.

/// The slot that the program at `path` runs in.
pub open spec fn spec_slot_for_path(p: Seq<u8>) -> Option<usize> {
    if p == "/bin/init".spec_bytes() {
        Some(0)
    } else if p == "/bin/echo".spec_bytes() {
        Some(1)
    } else if p == "/bin/env".spec_bytes() {
        Some(2)
    } else if p == "/bin/ls".spec_bytes() {
        Some(3)
    } else if p == "/bin/cat".spec_bytes() {
        Some(4)
    } else if p == "/bin/tee".spec_bytes() {
        Some(5)
    } else if p == "/bin/sed".spec_bytes() {
        Some(6)
    } else {
        None
    }
}

/// The slot that the program at `path` runs in, if it has one.
pub fn slot_for_path(path: &str) -> (r: Option<usize>)
    ensures
        r == spec_slot_for_path(path.spec_bytes()),
{
    let p = path.as_bytes();
    if bytes_eq(p, "/bin/init".as_bytes()) {
        Some(0)
    } else if bytes_eq(p, "/bin/echo".as_bytes()) {
        Some(1)
    } else if bytes_eq(p, "/bin/env".as_bytes()) {
        Some(2)
    } else if bytes_eq(p, "/bin/ls".as_bytes()) {
        Some(3)
    } else if bytes_eq(p, "/bin/cat".as_bytes()) {
        Some(4)
    } else if bytes_eq(p, "/bin/tee".as_bytes()) {
        Some(5)
    } else if bytes_eq(p, "/bin/sed".as_bytes()) {
        Some(6)
    } else {
        None
    }
}

pub open spec fn spec_slot_base(slot_idx: int) -> int {
    PROCESS_SLOT_BASE + slot_idx * PROCESS_SLOT_SIZE
}

/// The first address of slot `slot_idx`.
pub fn slot_base(slot_idx: usize) -> (r: u64)
    requires
        spec_slot_base(slot_idx as int) <= u64::MAX,
    ensures
        r == spec_slot_base(slot_idx as int),
{
    PROCESS_SLOT_BASE + (slot_idx as u64) * PROCESS_SLOT_SIZE
}

pub open spec fn spec_slot_for_index(slot_idx: int) -> AppSlot {
    AppSlot {
        base: spec_slot_base(slot_idx) as u64,
        end: (spec_slot_base(slot_idx) + PROCESS_SLOT_SIZE) as u64,
    }
}

/// The address range of slot `slot_idx`.
pub fn slot_for_index(slot_idx: usize) -> (r: AppSlot)
    requires
        spec_slot_base(slot_idx as int) + PROCESS_SLOT_SIZE <= u64::MAX,
    ensures
        r == spec_slot_for_index(slot_idx as int),
{
    let base = slot_base(slot_idx);
    AppSlot { base, end: base + PROCESS_SLOT_SIZE }
}

/// The pages to map for slot `slot_idx`, whose programs are loaded there.
pub fn exec_region_pages(slot_idx: usize) -> (r: Vec<u64>)
    requires
        slot_idx < MAX_PROCESS_SLOTS,
    ensures
        r@ == spec_pages(spec_slot_base(slot_idx as int), spec_slot_base(slot_idx as int) + PROCESS_SLOT_SIZE - 1),
        r@.len() == PROCESS_SLOT_SIZE / PAGE_SIZE,
{
    let base = slot_base(slot_idx);
    let r = pages_in_range(base, PROCESS_SLOT_SIZE);
    proof {
        let b = spec_slot_base(slot_idx as int);
        assert(b % 4096 == 0);
        assert(spec_page_start(b) == b);
        assert(spec_page_start(b + PROCESS_SLOT_SIZE - 1) == b + PROCESS_SLOT_SIZE - 4096);
    }
    r
}

/// The kernel's state: processes, redirected I/O and files.
pub struct Kernel {
    pub procs: ProcessManager,
    pub io: IoState,
    pub vfs: Vfs,
}

impl Kernel {
    pub open spec fn wf(&self) -> bool {
        table_wf(self.procs@) && self.io.wf() && self.vfs.wf()
    }

    /// A kernel with no process running over the file table `vfs`.
    pub fn new(vfs: Vfs) -> (k: Self)
        requires
            vfs.wf(),
        ensures
            k.wf(),
            k.procs@.next_pid == 1,
            !k.io.active,
            k.vfs == vfs,
    {
        Kernel { procs: ProcessManager::new(), io: IoState::new(), vfs }
    }
}

/// The slot-and-file check that `probe_executable` decides.
pub open spec fn spec_probe(files: Seq<crate::vfs::FileEntry>, p: Seq<u8>) -> bool {
    match spec_find_file(files, p, 0) {
        None => false,
        Some(i) => match spec_slot_for_path(p) {
            None => false,
            Some(s) => spec_validate_elf(files[i].data@, spec_slot_for_index(s as int)) is Ok,
        },
    }
}

/// Whether `path` names a program that exists and fits its slot.
pub fn probe_executable(k: &Kernel, path: &str) -> (r: bool)
    ensures
        r == spec_probe(k.vfs.files@, path.spec_bytes()),
{
    let bytes = match read_file(&k.vfs, path) {
        Some(b) => b,
        None => return false,
    };
    let slot_idx = match slot_for_path(path) {
        Some(s) => s,
        None => return false,
    };
    let slot = slot_for_index(slot_idx);
    probe_elf_for_slot(bytes, slot)
}

/// What starting a program came to: finished already with a status (it could
/// not be started), or to be loaded into `slot` as `image` and entered.
pub enum ExecStart {
    Done(u64),
    Run { pid: u64, slot: AppSlot, image: ExecImage },
}

/// What starting the program at `path` does to the process table (from
/// `t0` to `t1f`) and yields, over the file table `files`.
pub open spec fn exec_outcome(
    t0: ProcTable,
    files: Seq<crate::vfs::FileEntry>,
    path: Seq<u8>,
    args: Seq<u8>,
    env: Seq<u8>,
    t1f: ProcTable,
    r: ExecStart,
) -> bool {
    &&& ({
            match spec_find_file(files, path, 0) {
                None => r matches ExecStart::Done(s) && s == u64::MAX && t1f == t0,
                Some(fi) => match spec_slot_for_path(path) {
                    None => r matches ExecStart::Done(s) && s == u64::MAX && t1f == t0,
                    Some(si) => {
                        let (t1, sp) = spec_spawn_slot(t0, si as int);
                        let slot = spec_slot_for_index(si as int);
                        match sp {
                            None => r matches ExecStart::Done(s) && s == u64::MAX
                                && t1f == t0,
                            Some((pid, _)) => match spec_validate_elf(
                                files[fi].data@,
                                slot,
                            ) {
                                Err(_) => r matches ExecStart::Done(s) && s == u64::MAX
                                    && t1f == spec_finish(t1, pid),
                                Ok(_) => r matches ExecStart::Run { pid: rp, slot: rs, image: _ }
                                    && rp == pid && rs == slot && t1f == t1,
                            },
                        }
                    },
                },
            }
        })
    &&& (r matches ExecStart::Run { pid: _, slot: rs, image: img } ==> ({
            let fi = spec_find_file(files, path, 0).unwrap();
            let data = files[fi].data@;
            let h = spec_validate_elf(data, rs).unwrap();
            &&& img.segments@ == crate::elf::spec_loads(data, h, h.phnum as nat)
            &&& forall|j: int|
                0 <= j < img.segments@.len() ==> crate::elf::spec_segment_fits(
                    #[trigger] img.segments@[j],
                    rs,
                    data.len() as int,
                )
            &&& match crate::elf::spec_launch_error(
                h,
                args.len() as int,
                env.len() as int,
            ) {
                Some(e) => img.launch matches Err(x) && x == e,
                None => img.launch matches Ok(l) && l.entry == h.entry && l.args@
                    == args.push(0u8) && l.env@ == env.push(0u8),
            }
        }))
}

/// Starting a program decides the same thing however its I/O is set up:
/// two starts from the same table and file table, for the same path, text
/// and environment (a plain `exec` and an `exec_with_io` with no input and
/// no capture, say) leave the same process table and give the same status,
/// or the same pid and slot. A path that names no file, or a file with no
/// slot, gives `u64::MAX` and leaves the table alone.
pub proof fn lemma_exec_outcome_unique(
    t0: ProcTable,
    files: Seq<crate::vfs::FileEntry>,
    path: Seq<u8>,
    args: Seq<u8>,
    env: Seq<u8>,
    t1: ProcTable,
    r1: ExecStart,
    t2: ProcTable,
    r2: ExecStart,
)
    requires
        exec_outcome(t0, files, path, args, env, t1, r1),
        exec_outcome(t0, files, path, args, env, t2, r2),
    ensures
        t1 == t2,
        r1 is Done <==> r2 is Done,
        r1 matches ExecStart::Done(s1) ==> r2 matches ExecStart::Done(s2) && s1 == s2,
        r1 matches ExecStart::Run { pid: p1, slot: s1, image: _ } ==> (r2 matches ExecStart::Run {
            pid: p2,
            slot: s2,
            image: _,
        } && p1 == p2 && s1 == s2),
        (spec_find_file(files, path, 0) is None || spec_slot_for_path(path) is None) ==> (
        r1 matches ExecStart::Done(s) && s == u64::MAX) && t1 == t0,
{
}

/// Starts the program at `path` with I/O redirected: looks it up, reserves
/// its slot and plans its load. A program that cannot be started yields
/// `Done(u64::MAX)` (after its slot is freed again, if it had been reserved).
pub fn exec_with_io(
    k: &mut Kernel,
    path: &str,
    args: &str,
    env: &str,
    stdin: Option<&[u8]>,
    capture: bool,
) -> (r: ExecStart)
    requires
        old(k).wf(),
    ensures
        final(k).wf(),
        final(k).vfs == old(k).vfs,
        final(k).io.active,
        final(k).io.stdin_enabled == stdin is Some,
        final(k).io.stdin_pos == 0,
        final(k).io.stdout_capture == capture,
        final(k).io.stdout@.len() == 0,
        match stdin {
            Some(d) => final(k).io.stdin@ == d@.subrange(0, min(d@.len() as int, MAX_IO_STDIN as int)),
            None => final(k).io.stdin@.len() == 0,
        },
        exec_outcome(old(k).procs@, old(k).vfs.files@, path.spec_bytes(), args.spec_bytes(), env.spec_bytes(), final(k).procs@, r),
{
    begin_io(&mut k.io, stdin, capture);
    let bytes = match read_file(&k.vfs, path) {
        Some(b) => b,
        None => return ExecStart::Done(u64::MAX),
    };
    let slot_idx = match slot_for_path(path) {
        Some(s) => s,
        None => return ExecStart::Done(u64::MAX),
    };
    let pid = match k.procs.spawn_slot(slot_idx) {
        Some((pid, _)) => pid,
        None => return ExecStart::Done(u64::MAX),
    };
    let slot = slot_for_index(slot_idx);
    match plan_exec_in_slot(bytes, slot, args, env) {
        Ok(image) => ExecStart::Run { pid, slot, image },
        Err(_) => {
            k.procs.finish(pid, u64::MAX);
            ExecStart::Done(u64::MAX)
        },
    }
}

/// Starts the program at `path` without redirection (see `exec_with_io`).
pub fn exec(k: &mut Kernel, path: &str, args: &str, env: &str) -> (r: ExecStart)
    requires
        old(k).wf(),
    ensures
        final(k).wf(),
        final(k).vfs == old(k).vfs,
        final(k).io.active,
        !final(k).io.stdin_enabled,
        !final(k).io.stdout_capture,
        final(k).io.stdin@.len() == 0,
        final(k).io.stdout@.len() == 0,
        exec_outcome(old(k).procs@, old(k).vfs.files@, path.spec_bytes(), args.spec_bytes(), env.spec_bytes(), final(k).procs@, r),
{
    exec_with_io(k, path, args, env, None, false)
}

/// Records the end of program `pid`: its status is what its entry point
/// returned, or `u64::MAX` when it was not entered; its slot is freed.
pub fn complete_exec(k: &mut Kernel, pid: u64, entry_return: Option<u64>) -> (status: u64)
    requires
        old(k).wf(),
    ensures
        final(k).wf(),
        final(k).vfs == old(k).vfs,
        final(k).io == old(k).io,
        status == match entry_return {
            Some(v) => v,
            None => u64::MAX,
        },
        final(k).procs@ == spec_finish(old(k).procs@, pid),
{
    let status = match entry_return {
        Some(v) => v,
        None => u64::MAX,
    };
    k.procs.finish(pid, status);
    status
}

} // verus!
