# vredrs_codegen

Raw code generation for the Vredrs language: from a syntax tree to LLVM text,
to native assembly, and to firmware images, with every step verified by Verus.

- `ast`, `ir`: what is compiled: the syntax tree, and the static intermediate
  representation.
- `emit_llvm`, `static_code`: LLVM text of typed and untyped code; typed code
  needs no dynamic values.
- `cstar`: the C* backend.
  - `program`, `lower`, `annotations`: from the syntax tree to physical programs
    (`pir`).
  - `linear`: ownership of pointers: released once, and not used after that.
  - `llvm`, `codegen`, `packages`, `hardware`: LLVM text, linker scripts, package
    layout, patches.
  - `filter`: scheduling instructions around loops.
  - `advanced`: pipelines, patches, interrupt groups, prefetches, partitions.
  - `raw`: assembly for x86_64, AArch64 and ARM32, Thumb-2 firmware, register
    allocation, debug sections. `*_model` says what the code is, the module
    without the suffix makes it, and `*_laws` says what every step keeps.
- `text`, `bytes`, `error`: texts, bytes and errors.

`tests/` runs the library; `app/` holds what reads and writes files, runs tools
and prints messages.
