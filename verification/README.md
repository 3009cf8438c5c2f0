# healer

The core of healer, a kernel fuzzer driven by syscall descriptions, written
in Verus: syscall types and values, the memory allocators that place
values, value generation and mutation, the text form of programs, and the
bookkeeping around a fuzzing run (coverage, crashes, the qemu command line
and the waits while a machine boots). Every function in `src/` states its
behaviour in `requires`/`ensures` and is proved against it.

## Layout

- `src/ty/`, `src/syscall.rs`, `src/target.rs`: syscall and type
  descriptions and the target that indexes them, with the resource
  relations between syscalls.
- `src/value.rs`, `src/size.rs`, `src/len.rs`: values, their sizes, and
  filling in length fields.
- `src/allocator.rs`: the data-area allocator and the vma page allocator.
- `src/context.rs`: the state a program is built in: resource ids handed
  out and recorded by kind, strings and file names seen, the allocators.
- `src/gen/`, `src/mutation/`: generating values (integers, flags,
  resources that reuse earlier ones, arrays, structs, unions) and mutating
  them, by the kind of their type (`src/mutation/value.rs`), with the call
  to mutate picked by priority (`src/mutation/call.rs`) and the resources
  of the calls before it restored into the context
  (`src/mutation/res_ctx.rs`); randomness comes from `rand` through
  `src/rng.rs`.
- `src/parse.rs`: turning the parse tree of a program into calls, with
  fixing up of pointers and resources (`src/mutation/fixup.rs`;
  `src/mutation/stable.rs` proves that fixing up a fixed-up program changes
  nothing) and the
  resources each call produces and uses (`src/mutation/res_use.rs`);
  `src/mutation/seq.rs` moves the resource ids of calls past those in use.
- `src/hlang.rs`, `src/hlang/`: pieces of the spec language (lexing of
  identifiers and integers, type and resource values).
- `src/feedback.rs`, `src/crash.rs`, `src/lists.rs`, `src/sampler.rs`,
  `src/setup.rs`: coverage feedback, crash bookkeeping, the input lists, the
  statistics schedule, and the per-fuzzer setup names.
- `src/config.rs`, `src/qemu.rs`, `src/vm.rs`: the fuzzer and qemu
  configurations and their checks (the fault injection patterns are
  compiled with `regex`), the qemu command line, and the boot and
  crash-log waits.
- `src/hashed.rs`: the `ahash` sets and maps the library keeps its data in.
- `src/strings.rs`, `src/split.rs`, `src/idset.rs`: helpers.
- `app/`: a command line front end that checks a qemu configuration against
  the file system and the installed qemu, and can boot the machine once.
- `tests/`: tests on concrete values.
