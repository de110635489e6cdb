# vectoros

The logic of the VectorOS system, written in Verus and proved against its
contracts: the kernel's deterministic runtime and event transport, the
transvector fabric and transjector bus, the system-call layer, the boot
handoff checks, the ELF load planning of the bootloader, the EXObyte
reference VM and disassembler, and the boot-log analyser.

## Layout

- `src/` — the verified library, one module per concern:
  - `quad`, `transvector`, `transjector`, `softirq`, `kernel_state`,
    `runtime`: quad registers, the fabric registry, the gated bus, the event
    queues, mailboxes, dispatch and scheduling, as functions on an abstract
    view of the kernel state;
  - `runtime_laws`: what the event contract promises across the runtime
    (one route record per popped frame, violations always counted, a fast
    lane that touches only the TIMER slot, bounded adaptive budgets);
  - `runtime_log`, `log_contract`: the serial records the runtime leaves, and
    the proof that the analyser reads the kernel's tick records back;
  - `syscall`, `userland`: the `int 0x80` layer and the decisions of the
    `hello-sys` user program;
  - `boot`, `kernel_boot`, `framebuffer`, `kernel_io`, `demo`: the handoff,
    the kernel's first lines, pixel placement, descriptor tables and port
    sequences, and the boot-time fabric demonstration;
  - `elf`: header checks, the page span of the loadable segments, and the
    copies that place them;
  - `exobyte_format`, `exobyte_vm`, `exobyte_exec`, `exobyte_disasm`: the
    EXObyte container, the register machine (floating-point work is handed
    to its driver) and the disassembler;
  - `boot_log`: the boot-log analyser and its command line;
  - `text`, `fmt`: building text as bytes, and fixed-capacity lines.
- `app/` — what the library leaves to its host: the analyser's command line
  and JSON report, the loop that runs EXObyte programs with real `f64`
  arithmetic, and the glue that performs the kernel's, the bootloader's and
  the user program's I/O.
- `tests/` — tests of the library through its public interface.
