# smultron

The logic of a small x86_64 kernel and of its userspace tools, written in
Verus and proved against its contracts.

## Layout

- `src/` — the verified library.
  - `elf.rs`: ELF64 header and program-header parsing, checking an executable
    against the address slot it runs in, and the plan for loading it.
  - `process.rs`: the slot and process table, redirected standard input and
    captured output, and starting and finishing programs.
  - `vfs.rs`: the in-memory file table: lookup, directory listing, writes.
  - `syscall.rs`: system-call numbers, argument checks, NUL-terminated
    strings, and what each call does to the kernel's state.
  - `paging.rs`, `allocator.rs`: the pages to map for the heap and the slots.
  - `keyboard.rs`: PS/2 scancodes to bytes (decoding by `pc_keyboard`).
  - `libos.rs`: the userspace side of system calls.
  - `writes.rs`: program output as the sequence of write calls that make it.
  - `apps/`: the shell (`init`: line editing, `$` expansion, quoting, pipes,
    redirections, environment, `cd`) and the tools `echo`, `env`, `ls`, `cat`,
    `tee` and `sed`, each as steps that ask for one outside action at a time.
- `app/` — the kernel binary: boot, page tables, console I/O, reading and
  writing programs' memory for system calls, and the loops that perform the
  actions the library's steps ask for.
- `tests/` — tests of the library on concrete values.
