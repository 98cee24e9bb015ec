# uk2

A verified library for the data and the interpreters of the PC-98 game
engine behind UK2: MES bytecode, DLB archives, UK2.CFG, MAP layouts, PDT
images, music files and the engine's memory model.

- `src/` is the library, written in Verus: every function carries a contract
  and Verus proves it.  `vm.rs` is the MES interpreter (`Uk2Vm::step` runs one
  instruction, `Uk2Vm::run` a whole program against a `Uk2Host`);
  `disasm.rs` decodes and traverses bytecode; `engine/` models the engine's
  data segment, heap, VRAM, palettes, maps and text output.
- `tests/` runs the library on concrete inputs.
- `app/` is the command-line program: it reads files and game directories and
  prints what the library finds.
