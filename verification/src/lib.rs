//! Inspect the live state of another process on the same machine: enumerate
//! its threads, suspend them, copy memory out of its address space, walk call
//! stacks, and resolve stack addresses to function, file and line.

mod externs;
mod render;
mod error;
mod frame;
mod memory;
mod process;
mod maps;
mod symbol;
mod unwind;

pub use error::{Error, errno_text_of, no_binary_text};
pub use symbol::{Symbolicator, SymbolTable, sym_covers, elf_parses, elf_symbols_of};
pub use unwind::{Unwinder, UnwindCursor, FRAME_LIMIT};
pub use maps::{
    Module, ModuleMap, entries_wf, find_byte, parse_hex_range, parse_maps_line, parse_maps_text,
    hex_value_of, is_hex_digits, spec_first, spec_line_fields, spec_parse_text,
    module_matches_fields,
};
pub use frame::StackFrame;
pub use memory::{ProcessMemory, LocalProcess, PlainData, decode_each, lemma_decode_each_index};
pub use process::{
    Pid, Tid, Process, Thread, ThreadLock, filter_child_pids, chain_reaches, is_descendant_pair,
    parse_dec_u64, parse_stat_running, dec_value_of, is_dec_digits, stat_state,
    threads_from_names, spec_thread_list, name_tid,
};
pub use render::{u64_hex, u64_dec};
