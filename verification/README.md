# uxr

A Uxn virtual machine and Uxntal toolchain (assembler, disassembler, console and graphical
runners, terminal debugger) whose library is verified with Verus.

## Layout

- `src/` — the verified library.
  - `uxn/` — the machine: bytes, stacks, memory (with the expansion banks), the device
    interface and the interpreter (`Vm::step` is specified instruction by instruction).
  - `uxntal/` — the toolchain: tokenizer, preprocessor (includes, macros, lambdas), parser,
    assembler, symbol files and disassembler, with their error reports.
  - `toolchain.rs` — assembling a source file end to end, the hex dump and address arguments.
  - `console.rs`, `gui_device.rs` — the devices of the console and graphical runners: what each
    port read or write does, the screen drawing and what is asked of the outside world.
  - `file_device.rs` — the graphical runner's file devices: each transfer is a series of steps
    that decide, and ask the host for the file-system work in between.
  - `gui_frame.rs` — what the graphical runner does with a frame of keyboard and mouse input,
    as a list of events for the host to carry out.
  - `debugger/` — the debugger's state machine, its disassembly view, what its panes show, what
    each key does and its colour theme.
  - `style.rs`, `text.rs`, `shared/` — terminal colours, text building, the file loader trait.
- `tests/` — tests of the library on concrete programs and values.
- `app/` — the command-line program (`uxr asm|run|disasm|dbg|ui`): argument parsing, files,
  terminal and window I/O, which drive the library.

Run `uxr asm hello.tal hello.rom` to assemble, `uxr run hello.rom` to run on the terminal,
`uxr disasm hello.rom` to disassemble, `uxr dbg hello.rom` to debug and `uxr ui hello.rom` to
run in a window.
