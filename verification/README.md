# wie

A software x86-64 machine that runs small Windows programs (PE64), with the parts
that decide and compute verified by [Verus](https://github.com/verus-lang/verus).

## Layout

- `src/` is the library. Every function states what it does in a contract, and the
  contracts are proved.
  - `mem/`: guest memory, its storage backends, page protection, regions.
  - `regs.rs`, `insn/`, `exec/`: registers and flags, decoded instructions, and what
    each instruction does.
  - `iced_cpu.rs`, `cpu.rs`: the interpreter, and the interface of CPU backends.
  - `jit/`: the block compiler. Blocks are found, lowered to a small intermediate
    code and proved to do what their instructions do; caching, chaining and the
    dispatcher's decisions stand here too.
  - `pe/`: headers, sections, imports, and the memory image of a program.
  - `runtime/`: API addresses and in-guest stubs, guest threads, scenarios, reports.
- `tests/` runs the library.
- `app/` is the command line: files, environment, host threads, and the code
  generator (Cranelift) that turns the intermediate code into host code.

## Laws

Properties that span functions are public proof functions, next to the functions they
speak of. Among them:

- a compiled instruction, and a whole compiled block, does what the interpreter does
  (`jit/laws.rs`, `jit/vector_laws.rs`, `jit/block_laws.rs`). Left out are a conditional
  move from unreadable memory whose condition does not hold, a shift by zero of the low
  half of a register whose high half is not zero, vector instructions that fail or that
  the interpreter does not know, and the flags where an access fails, which may not be
  computed yet;
- a compiled block keeps every general register that none of its instructions writes
  (`jit/keeps.rs`);
- a read gives back what a write wrote, and all storage backends agree on it
  (`mem/backend.rs`, `mem/model.rs`);
- a return comes back behind its call (`exec/branch.rs`);
- patched import slots read back as the addresses that are listed (`pe/patch.rs`);
- stubs are planted within their ranges (`runtime/plant.rs`);
- a thread gets its registers back unchanged (`runtime/threads.rs`).
