//! VectorOS core logic: the deterministic kernel runtime, its event
//! transport, the transvector fabric, the syscall layer, the EXObyte
//! reference VM, the ELF loader's planning and the boot-log analyser.

pub mod text;
pub mod fmt;
pub mod quad;
pub mod transvector;
pub mod transjector;
pub mod softirq;
pub mod kernel_state;
pub mod runtime;
pub mod boot;
pub mod framebuffer;
pub mod syscall;
pub mod exobyte_format;
pub mod exobyte_vm;
pub mod exobyte_exec;
pub mod exobyte_disasm;
pub mod boot_log;
pub mod elf;
pub mod demo;
pub mod runtime_log;
pub mod kernel_io;
pub mod userland;
pub mod log_contract;
pub mod runtime_laws;
pub mod kernel_boot;
