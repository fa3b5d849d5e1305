# vea

A fantasy console: an assembler and cartridge builder, the virtual machine
that runs cartridges (with a debugger), a flowchart generator for assembly
code, a hover-only language server and a launcher.

- `src/` is the verified library (Verus). `shared/` holds the instruction
  set, operand encoding, registers, manifest and cartridge types;
  `compiler/` the assembler, palette and image conversion, error messages and
  the laws tying labels to the code they mark; `runtime/` the memory, the
  semantics of every instruction, the emulator, the debugger's logic, and the
  law that what the assembler emits the machine accepts; `flowchart/`,
  `lsp.rs` and `launcher.rs` the logic of the other tools.
- `app/` is the thin program around it: files, zip archives, TOML, the
  raylib window, the language-server transport and process launching.
- `tests/` exercises the library on concrete programs and files.

The project once had two compilers and two emulators: root-level modules
(`compiler/operands.rs`, `compiler/operand_checking.rs` and
`compiler/entry.rs` with its `ParseError`; `emulator/emulator.rs` and
`emulator/memory.rs`) and the workspace crates `compiler` and `runtime` that
superseded them. The library has one of each, the workspace crates' logic:
`compiler/` here covers both compilers' parsing and operand checking, and
`runtime/` both emulators' memory and stepping. `CompilationError` (while
assembling) and `Fault` (while running) take the place of `ParseError`.
